//! Fetching through a SOCKS5 proxy: how the fetch tool is called.

use crate::proxy_scrape::texts;
use crate::random::choose_entry;
use crate::text::{decimal, decimal_string};
use vstd::prelude::*;
use vstd::string::*;

verus! {

/// Smallest timeout, in seconds, that leaves time to connect.
pub const MIN_TIMEOUT_SECS: u64 = 2;

/// The arguments of a silent fetch of `url` into the file `path` through
/// the proxy `socks5_proxy`, as `user_agent`: the connection is given two
/// seconds less than the timeout, the whole fetch one second less.
pub open spec fn curl_arguments_spec(
    path: Seq<char>,
    user_agent: Seq<char>,
    socks5_proxy: Seq<char>,
    timeout_secs: u64,
    url: Seq<char>,
) -> Seq<Seq<char>> {
    seq![
        "-s"@,
        "-o"@,
        path,
        "--user-agent"@,
        user_agent,
        "--socks5-hostname"@,
        socks5_proxy,
        "--connect-timeout"@,
        decimal((timeout_secs - 2) as nat),
        "--max-time"@,
        decimal((timeout_secs - 1) as nat),
        url,
    ]
}

/// The arguments of a fetch, as `curl_arguments_spec` has them.
pub fn curl_arguments(
    path: &str,
    user_agent: &str,
    socks5_proxy: &str,
    timeout_secs: u64,
    url: &str,
) -> (args: Vec<String>)
    requires
        timeout_secs >= MIN_TIMEOUT_SECS,
    ensures
        texts(args@) == curl_arguments_spec(path@, user_agent@, socks5_proxy@, timeout_secs, url@),
{
    let mut args: Vec<String> = Vec::new();
    args.push(String::from_str("-s"));
    args.push(String::from_str("-o"));
    args.push(String::from_str(path));
    args.push(String::from_str("--user-agent"));
    args.push(String::from_str(user_agent));
    args.push(String::from_str("--socks5-hostname"));
    args.push(String::from_str(socks5_proxy));
    args.push(String::from_str("--connect-timeout"));
    args.push(decimal_string(timeout_secs - 2));
    args.push(String::from_str("--max-time"));
    args.push(decimal_string(timeout_secs - 1));
    args.push(String::from_str(url));
    proof {
        assert(texts(args@) =~= curl_arguments_spec(
            path@,
            user_agent@,
            socks5_proxy@,
            timeout_secs,
            url@,
        ));
    }
    args
}

/// The arguments of a fetch of `url` into `path` through `socks5_proxy`,
/// as one of `user_agents` drawn at random; `None` where there is no user
/// agent to draw.
pub fn fetch_with_socks5(
    user_agents: &Vec<String>,
    timeout_secs: u64,
    url: &str,
    path: &str,
    socks5_proxy: &str,
) -> (args: Option<Vec<String>>)
    requires
        timeout_secs >= MIN_TIMEOUT_SECS,
    ensures
        args is None <==> user_agents@.len() == 0,
        args matches Some(a) ==> exists|i: int|
            0 <= i < user_agents@.len() && texts(a@) == curl_arguments_spec(
                path@,
                (#[trigger] user_agents@[i])@,
                socks5_proxy@,
                timeout_secs,
                url@,
            ),
{
    match choose_entry(user_agents) {
        Some(user_agent) => Some(
            curl_arguments(path, user_agent.as_str(), socks5_proxy, timeout_secs, url),
        ),
        None => None,
    }
}

} // verus!
