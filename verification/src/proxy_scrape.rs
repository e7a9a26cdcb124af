//! Reading a scraped proxy list: whatever the page looks like, every
//! `a.b.c.d port` in it, with anything but digits and dots between the
//! two, is a candidate address.

use vstd::prelude::*;

verus! {

/// Smallest and largest value of an octet that is taken.
pub const OCTET_MIN: u32 = 1;

pub const OCTET_MAX: u32 = 255;

/// Smallest and largest port that is taken.
pub const PORT_MIN: u32 = 80;

pub const PORT_MAX: u32 = 65536;

pub open spec fn is_digit(b: u8) -> bool {
    48 <= b <= 57
}

/// Digits and dots stay; every other byte becomes a space.
pub open spec fn keep_byte(b: u8) -> u8 {
    if is_digit(b) || b == 46 {
        b
    } else {
        32
    }
}

/// The page with every byte but digits and dots turned into a space.
pub open spec fn normalize(bytes: Seq<u8>) -> Seq<u8> {
    Seq::new(bytes.len(), |i: int| keep_byte(bytes[i]))
}

/// The text with every run of spaces collapsed into one space.
pub open spec fn collapse(t: Seq<u8>) -> Seq<u8>
    decreases t.len(),
{
    if t.len() == 0 {
        Seq::empty()
    } else {
        let before = collapse(t.drop_last());
        if t.last() == 32 && before.len() > 0 && before.last() == 32 {
            before
        } else {
            before.push(t.last())
        }
    }
}

/// Number of digits in a row from place `p` on.
pub open spec fn digit_run(t: Seq<u8>, p: int) -> nat
    decreases t.len() - p,
{
    if 0 <= p < t.len() && is_digit(t[p]) {
        1 + digit_run(t, p + 1)
    } else {
        0
    }
}

/// Value of the `k` digits from place `p` on, read as a decimal number.
pub open spec fn digits_value(t: Seq<u8>, p: int, k: nat) -> nat
    decreases k,
{
    if k == 0 {
        0
    } else {
        digits_value(t, p, (k - 1) as nat) * 10 + (t[p + k - 1] - 48) as nat
    }
}

/// Where an address stands in the text: the places and lengths of its four
/// octets and of its port.
pub struct AddrSpan {
    pub a: int,
    pub a_len: nat,
    pub b: int,
    pub b_len: nat,
    pub c: int,
    pub c_len: nat,
    pub d: int,
    pub d_len: nat,
    pub port: int,
    pub port_len: nat,
}

impl AddrSpan {
    /// Place behind the address.
    pub open spec fn end(self) -> int {
        self.port + self.port_len
    }
}

/// One to three digits from place `p` on, directly followed by the byte
/// `sep`.
pub open spec fn octet_at(t: Seq<u8>, p: int, sep: u8) -> bool {
    1 <= digit_run(t, p) <= 3 && p + digit_run(t, p) < t.len() && t[p + digit_run(t, p)] == sep
}

/// The address that begins at place `p`, if one does: four groups of one to
/// three digits, the first three followed by a dot and the fourth by a
/// space, and then two to five digits, as many as there are.
pub open spec fn match_at(t: Seq<u8>, p: int) -> Option<AddrSpan> {
    let a_len = digit_run(t, p);
    let b = p + a_len + 1;
    let b_len = digit_run(t, b);
    let c = b + b_len + 1;
    let c_len = digit_run(t, c);
    let d = c + c_len + 1;
    let d_len = digit_run(t, d);
    let port = d + d_len + 1;
    let run = digit_run(t, port);
    if 0 <= p && octet_at(t, p, 46) && octet_at(t, b, 46) && octet_at(t, c, 46) && octet_at(t, d, 32)
        && run >= 2 {
        Some(
            AddrSpan {
                a: p,
                a_len,
                b,
                b_len,
                c,
                c_len,
                d,
                d_len,
                port,
                port_len: if run < 5 {
                    run
                } else {
                    5
                },
            },
        )
    } else {
        None
    }
}

pub open spec fn octet_in_range(v: nat) -> bool {
    OCTET_MIN <= v <= OCTET_MAX
}

/// An address is taken when its octets and its port are in range.
pub open spec fn span_in_range(t: Seq<u8>, m: AddrSpan) -> bool {
    &&& octet_in_range(digits_value(t, m.a, m.a_len))
    &&& octet_in_range(digits_value(t, m.b, m.b_len))
    &&& octet_in_range(digits_value(t, m.c, m.c_len))
    &&& octet_in_range(digits_value(t, m.d, m.d_len))
    &&& PORT_MIN <= digits_value(t, m.port, m.port_len) <= PORT_MAX
}

/// The bytes as characters.
pub open spec fn as_chars(s: Seq<u8>) -> Seq<char> {
    Seq::new(s.len(), |i: int| s[i] as char)
}

/// The address as it is handed on: `a.b.c.d:port`, digits as found.
pub open spec fn address_text(t: Seq<u8>, m: AddrSpan) -> Seq<char> {
    as_chars(t.subrange(m.a, m.d + m.d_len)) + seq![':'] + as_chars(
        t.subrange(m.port, m.port + m.port_len),
    )
}

/// The addresses taken from the text from place `p` on: the leftmost
/// address, then those behind it.
pub open spec fn addresses_from(t: Seq<u8>, p: int) -> Seq<Seq<char>>
    decreases t.len() - p,
{
    if p < 0 || p >= t.len() {
        Seq::empty()
    } else if match_at(t, p) is Some {
        let m = match_at(t, p)->0;
        let next = if p < m.end() <= t.len() {
            m.end()
        } else {
            p + 1
        };
        (if span_in_range(t, m) {
            seq![address_text(t, m)]
        } else {
            Seq::empty()
        }) + addresses_from(t, next)
    } else {
        addresses_from(t, p + 1)
    }
}

/// The proxy addresses that a scraped page holds.
pub open spec fn proxy_addresses(bytes: Seq<u8>) -> Seq<Seq<char>> {
    addresses_from(collapse(normalize(bytes)), 0)
}

/// The texts of a list of strings.
pub open spec fn texts(v: Seq<String>) -> Seq<Seq<char>> {
    Seq::new(v.len(), |i: int| v[i]@)
}

/// Where an address stands in the text, as the scanner holds it.
#[derive(Clone, Copy, Debug, PartialEq, Eq)]
pub struct AddrMatch {
    pub a: usize,
    pub a_len: usize,
    pub b: usize,
    pub b_len: usize,
    pub c: usize,
    pub c_len: usize,
    pub d: usize,
    pub d_len: usize,
    pub port: usize,
    pub port_len: usize,
}

impl View for AddrMatch {
    type V = AddrSpan;

    open spec fn view(&self) -> AddrSpan {
        AddrSpan {
            a: self.a as int,
            a_len: self.a_len as nat,
            b: self.b as int,
            b_len: self.b_len as nat,
            c: self.c as int,
            c_len: self.c_len as nat,
            d: self.d as int,
            d_len: self.d_len as nat,
            port: self.port as int,
            port_len: self.port_len as nat,
        }
    }
}

/// A run of digits ends at the end of the text.
pub proof fn lemma_digit_run_bound(t: Seq<u8>, p: int)
    requires
        0 <= p <= t.len(),
    ensures
        p + digit_run(t, p) <= t.len(),
        forall|j: int| p <= j < p + digit_run(t, p) ==> is_digit(#[trigger] t[j]),
    decreases t.len() - p,
{
    if p < t.len() && is_digit(t[p]) {
        lemma_digit_run_bound(t, p + 1);
    }
}


/// An address that begins at place `p` lies in the text and is not empty:
/// the reading of `addresses_from` always goes on behind it.
pub proof fn lemma_match_lies_in_text(t: Seq<u8>, p: int)
    requires
        match_at(t, p) is Some,
    ensures
        p < match_at(t, p)->0.end() <= t.len(),
{
    let m = match_at(t, p)->0;
    lemma_digit_run_bound(t, m.port);
}

/// The page with every byte but digits and dots turned into a space.
pub fn normalize_bytes(bytes: &Vec<u8>) -> (out: Vec<u8>)
    ensures
        out@ == normalize(bytes@),
{
    let mut out: Vec<u8> = Vec::new();
    let mut i: usize = 0;
    while i < bytes.len()
        invariant
            i <= bytes@.len(),
            out@.len() == i,
            forall|j: int| 0 <= j < i ==> #[trigger] out@[j] == keep_byte(bytes@[j]),
        decreases bytes@.len() - i,
    {
        let b = bytes[i];
        if (b >= 48 && b <= 57) || b == 46 {
            out.push(b);
        } else {
            out.push(32);
        }
        i += 1;
    }
    proof {
        assert(out@ =~= normalize(bytes@));
    }
    out
}

/// The text with every run of spaces collapsed into one space.
pub fn collapse_spaces(text: &Vec<u8>) -> (out: Vec<u8>)
    ensures
        out@ == collapse(text@),
{
    let mut out: Vec<u8> = Vec::new();
    let mut i: usize = 0;
    proof {
        assert(text@.take(0) =~= Seq::<u8>::empty());
    }
    while i < text.len()
        invariant
            i <= text@.len(),
            out@ == collapse(text@.take(i as int)),
        decreases text@.len() - i,
    {
        let b = text[i];
        proof {
            assert(text@.take(i + 1).drop_last() =~= text@.take(i as int));
            assert(text@.take(i + 1).last() == b);
        }
        let n = out.len();
        if !(b == 32 && n > 0 && out[n - 1] == 32) {
            out.push(b);
        }
        i += 1;
    }
    proof {
        assert(text@.take(text@.len() as int) =~= text@);
    }
    out
}

/// Number of digits in a row from place `p` on, counted up to `cap`.
fn digit_run_capped(text: &Vec<u8>, p: usize, cap: usize) -> (run: usize)
    requires
        p <= text@.len(),
    ensures
        run == if digit_run(text@, p as int) < cap {
            digit_run(text@, p as int)
        } else {
            cap as nat
        },
        p + run <= text@.len(),
{
    let mut run: usize = 0;
    let n = text.len();
    proof {
        lemma_digit_run_bound(text@, p as int);
    }
    while run < cap && p + run < n && text[p + run] >= 48 && text[p + run] <= 57
        invariant
            n == text@.len(),
            p + run <= n,
            run <= cap,
            digit_run(text@, p as int) == run + digit_run(text@, p + run),
        decreases cap - run,
    {
        run += 1;
    }
    run
}

/// One to three digits from place `p` on, directly followed by `sep`:
/// their number, if that is what stands there.
fn octet_len_at(text: &Vec<u8>, p: usize, sep: u8) -> (len: Option<usize>)
    requires
        p <= text@.len(),
        !is_digit(sep),
    ensures
        len is Some <==> octet_at(text@, p as int, sep),
        len matches Some(k) ==> k == digit_run(text@, p as int) && p + k < text@.len(),
{
    let n = text.len();
    let run = digit_run_capped(text, p, 4);
    if run >= 1 && run <= 3 && p + run < n && text[p + run] == sep {
        Some(run)
    } else {
        proof {
            if run == 4 {
                assert(digit_run(text@, p as int) >= 4);
            }
        }
        None
    }
}

/// The address that begins at place `p`, if one does.
pub fn match_proxy_at(text: &Vec<u8>, p: usize) -> (found: Option<AddrMatch>)
    requires
        p < text@.len(),
    ensures
        found is Some <==> match_at(text@, p as int) is Some,
        found matches Some(m) ==> Some(m@) == match_at(text@, p as int) && m@.end() <= text@.len()
            && p < m@.end(),
{
    let n = text.len();
    let a_len = match octet_len_at(text, p, 46) {
        Some(k) => k,
        None => { return None; },
    };
    let b = p + a_len + 1;
    let b_len = match octet_len_at(text, b, 46) {
        Some(k) => k,
        None => { return None; },
    };
    let c = b + b_len + 1;
    let c_len = match octet_len_at(text, c, 46) {
        Some(k) => k,
        None => { return None; },
    };
    let d = c + c_len + 1;
    let d_len = match octet_len_at(text, d, 32) {
        Some(k) => k,
        None => { return None; },
    };
    let port = d + d_len + 1;
    let port_len = digit_run_capped(text, port, 5);
    if port_len < 2 {
        return None;
    }
    Some(AddrMatch { a: p, a_len, b, b_len, c, c_len, d, d_len, port, port_len })
}

/// Value of the `k` digits from place `p` on.
fn read_number(text: &Vec<u8>, p: usize, k: usize) -> (v: u32)
    requires
        p + k <= text@.len(),
        k <= 5,
        forall|j: int| p <= j < p + k ==> is_digit(#[trigger] text@[j]),
    ensures
        v == digits_value(text@, p as int, k as nat),
{
    let mut v: u32 = 0;
    let mut i: usize = 0;
    let n = text.len();
    while i < k
        invariant
            i <= k <= 5,
            n == text@.len(),
            p + k <= text@.len(),
            forall|j: int| p <= j < p + k ==> is_digit(#[trigger] text@[j]),
            v == digits_value(text@, p as int, i as nat),
            v < if i == 0 {
                1u32
            } else if i == 1 {
                10u32
            } else if i == 2 {
                100u32
            } else if i == 3 {
                1000u32
            } else if i == 4 {
                10000u32
            } else {
                100000u32
            },
        decreases k - i,
    {
        let digit = text[p + i] - 48;
        assert(is_digit(text@[p + i]));
        v = v * 10 + digit as u32;
        i += 1;
    }
    v
}

/// Appends the bytes of `text` from `from` to `to` to `out`, as characters.
fn push_bytes(out: &mut String, text: &Vec<u8>, from: usize, to: usize)
    requires
        from <= to <= text@.len(),
    ensures
        final(out)@ == old(out)@ + as_chars(text@.subrange(from as int, to as int)),
{
    let mut i: usize = from;
    proof {
        assert(as_chars(text@.subrange(from as int, from as int)) =~= Seq::<char>::empty());
        assert(out@ =~= old(out)@ + as_chars(text@.subrange(from as int, from as int)));
    }
    while i < to
        invariant
            from <= i <= to <= text@.len(),
            out@ == old(out)@ + as_chars(text@.subrange(from as int, i as int)),
        decreases to - i,
    {
        let c = text[i] as char;
        out.push(c);
        proof {
            assert(as_chars(text@.subrange(from as int, i + 1)) =~= as_chars(
                text@.subrange(from as int, i as int),
            ).push(c));
        }
        i += 1;
    }
}

/// The proxy addresses that a scraped page holds, in the order of the
/// page: the page is reduced to digits, dots and single spaces, then read
/// from left to right for addresses `a.b.c.d port`, and each one whose
/// octets lie in `OCTET_MIN..=OCTET_MAX` and whose port lies in
/// `PORT_MIN..=PORT_MAX` is handed on as `a.b.c.d:port`.
pub fn parse_socks5_proxy_list(bytes: &Vec<u8>) -> (found: Vec<String>)
    ensures
        texts(found@) == proxy_addresses(bytes@),
{
    let norm = normalize_bytes(bytes);
    let text = collapse_spaces(&norm);
    let mut found: Vec<String> = Vec::new();
    let mut p: usize = 0;
    proof {
        assert(texts(found@) + addresses_from(text@, 0) =~= addresses_from(text@, 0));
    }
    while p < text.len()
        invariant
            p <= text@.len(),
            texts(found@) + addresses_from(text@, p as int) == addresses_from(text@, 0),
        decreases text@.len() - p,
    {
        match match_proxy_at(&text, p) {
            Some(m) => {
                proof {
                    lemma_digit_run_bound(text@, m.a as int);
                    lemma_digit_run_bound(text@, m.b as int);
                    lemma_digit_run_bound(text@, m.c as int);
                    lemma_digit_run_bound(text@, m.d as int);
                    lemma_digit_run_bound(text@, m.port as int);
                }
                let a = read_number(&text, m.a, m.a_len);
                let b = read_number(&text, m.b, m.b_len);
                let c = read_number(&text, m.c, m.c_len);
                let d = read_number(&text, m.d, m.d_len);
                let port = read_number(&text, m.port, m.port_len);
                let ghost before = texts(found@);
                if a >= OCTET_MIN && a <= OCTET_MAX && b >= OCTET_MIN && b <= OCTET_MAX && c
                    >= OCTET_MIN && c <= OCTET_MAX && d >= OCTET_MIN && d <= OCTET_MAX && port
                    >= PORT_MIN && port <= PORT_MAX {
                    let mut addr = String::new();
                    push_bytes(&mut addr, &text, m.a, m.d + m.d_len);
                    addr.push(':');
                    push_bytes(&mut addr, &text, m.port, m.port + m.port_len);
                    proof {
                        assert(addr@ =~= address_text(text@, m@));
                    }
                    found.push(addr);
                    proof {
                        assert(texts(found@) =~= before + seq![address_text(text@, m@)]);
                    }
                }
                proof {
                    assert(texts(found@) + addresses_from(text@, m@.end()) =~= before
                        + addresses_from(text@, p as int));
                }
                p = m.port + m.port_len;
            },
            None => {
                p += 1;
            },
        }
    }
    proof {
        assert(texts(found@) + addresses_from(text@, p as int) =~= texts(found@));
    }
    found
}

} // verus!
