use crooked_earth::download::{
    claim_pending, do_download, download2, download_loop, download_loop_startup, get_table_name,
    needs_file_probe, repair_record, requeue, reset_pending_on_startup, DownloadEntry,
    DownloadOutcome, FetcherRegistry, DownloadRace, FileProbe, FollowUp, RaceVerdict, RequestKind, RequestRecord,
    DEFAULT_RETRY_COUNT,
};

fn empty_record() -> RequestRecord<u32> {
    RequestRecord { final_entry: None, pending: None }
}

fn entry_of(record: &RequestRecord<u32>) -> &DownloadEntry<u32> {
    record.final_entry.as_ref().unwrap()
}

#[test]
fn invalid_request_is_refused_and_leaves_no_trace() {
    let mut record = empty_record();
    assert!(!needs_file_probe(false, &record));
    assert!(matches!(download2(false, &mut record, FileProbe::Parsed(1)), DownloadOutcome::Invalid));
    assert!(record.final_entry.is_none());
    assert!(record.pending.is_none());
}

#[test]
fn first_call_queues_the_request() {
    let mut record = empty_record();
    assert!(needs_file_probe(true, &record));
    match download2(true, &mut record, FileProbe::Missing) {
        DownloadOutcome::Pending { message, delete_file } => {
            assert_eq!(message, "just added to pending, plz wait. ");
            assert!(!delete_file);
        }
        other => panic!("unexpected outcome {:?}", other),
    }
    assert_eq!(record.pending, Some(false));
    let entry = entry_of(&record);
    assert_eq!(entry.parse_result, None);
    assert_eq!(entry.error_txt, "pending (try #1)...\n\n");
    assert_eq!(entry.fail_count, 0);
}

#[test]
fn second_call_answers_from_the_note() {
    let mut record = empty_record();
    download2(true, &mut record, FileProbe::Missing);
    assert!(!needs_file_probe(true, &record));
    match download2(true, &mut record, FileProbe::Parsed(5)) {
        DownloadOutcome::Failed(text) => assert_eq!(text, "pending (try #1)...\n\n"),
        other => panic!("unexpected outcome {:?}", other),
    }
    assert_eq!(record.pending, Some(false));
    assert_eq!(entry_of(&record).parse_result, None);
}

#[test]
fn file_that_parses_gives_the_result_at_once() {
    let mut record = empty_record();
    assert!(matches!(download2(true, &mut record, FileProbe::Parsed(42)), DownloadOutcome::Found));
    assert_eq!(record.pending, None);
    let entry = entry_of(&record);
    assert_eq!(entry.parse_result, Some(42));
    assert_eq!(entry.error_txt, "");
    assert_eq!(entry.fail_count, 0);
    assert!(matches!(download2(true, &mut record, FileProbe::Missing), DownloadOutcome::Found));
    assert_eq!(entry_of(&record).parse_result, Some(42));
}

#[test]
fn file_that_does_not_parse_is_deleted_and_the_request_queued() {
    let mut record = empty_record();
    match download2(true, &mut record, FileProbe::Unparseable) {
        DownloadOutcome::Pending { delete_file, .. } => assert!(delete_file),
        other => panic!("unexpected outcome {:?}", other),
    }
    assert_eq!(record.pending, Some(false));
}

#[test]
fn loop_claims_each_queued_request_once() {
    let mut record = empty_record();
    assert!(!claim_pending(&mut record));
    download2(true, &mut record, FileProbe::Missing);
    assert!(claim_pending(&mut record));
    assert_eq!(record.pending, Some(true));
    assert!(!claim_pending(&mut record));
    assert_eq!(record.pending, Some(true));
}

#[test]
fn winning_attempt_writes_the_result_and_leaves_the_queue() {
    let mut record = empty_record();
    download2(true, &mut record, FileProbe::Missing);
    claim_pending(&mut record);
    assert_eq!(do_download(&mut record, Ok(9), DEFAULT_RETRY_COUNT), FollowUp::Done);
    assert_eq!(record.pending, None);
    let entry = entry_of(&record);
    assert_eq!(entry.parse_result, Some(9));
    assert_eq!(entry.error_txt, "");
    assert_eq!(entry.fail_count, 0);
}

#[test]
fn at_most_one_winner() {
    let mut record = empty_record();
    download2(true, &mut record, FileProbe::Missing);
    claim_pending(&mut record);
    assert_eq!(do_download(&mut record, Ok(9), 3), FollowUp::Done);
    assert_eq!(do_download(&mut record, Ok(10), 3), FollowUp::Ignored);
    assert_eq!(do_download(&mut record, Err("late".to_string()), 3), FollowUp::Ignored);
    assert_eq!(entry_of(&record).parse_result, Some(9));
    assert!(!claim_pending(&mut record));
    requeue(&mut record);
    reset_pending_on_startup(&mut record);
    assert_eq!(record.pending, None);
    assert!(matches!(download2(true, &mut record, FileProbe::Parsed(11)), DownloadOutcome::Found));
    assert_eq!(entry_of(&record).parse_result, Some(9));
}

#[test]
fn no_lost_retries() {
    let mut record = empty_record();
    download2(true, &mut record, FileProbe::Missing);
    assert!(claim_pending(&mut record));
    assert_eq!(do_download(&mut record, Err("boom".to_string()), 3), FollowUp::RetryAfter(15));
    assert_eq!(record.pending, Some(true));
    assert_eq!(entry_of(&record).fail_count, 1);
    assert_eq!(
        entry_of(&record).error_txt,
        "pending (try #1)...\n\ndownload attempt #1 failed: boom\n"
    );
    requeue(&mut record);
    assert_eq!(record.pending, Some(false));
    assert!(claim_pending(&mut record));
    assert_eq!(do_download(&mut record, Err("bang".to_string()), 3), FollowUp::RetryAfter(30));
    assert_eq!(entry_of(&record).fail_count, 2);
    assert_eq!(
        entry_of(&record).error_txt,
        "pending (try #1)...\n\ndownload attempt #1 failed: boom\ndownload attempt #2 failed: bang\n"
    );
    requeue(&mut record);
    assert_eq!(record.pending, Some(false));
}

#[test]
fn request_is_given_up_after_the_last_retry() {
    let mut record = empty_record();
    download2(true, &mut record, FileProbe::Missing);
    for attempt in 1..=2u64 {
        assert!(claim_pending(&mut record));
        assert_eq!(
            do_download(&mut record, Err("x".to_string()), 3),
            FollowUp::RetryAfter(15 * attempt)
        );
        requeue(&mut record);
    }
    assert!(claim_pending(&mut record));
    assert_eq!(do_download(&mut record, Err("x".to_string()), 3), FollowUp::GivenUp);
    assert_eq!(record.pending, None);
    assert_eq!(entry_of(&record).fail_count, 3);
    assert!(!claim_pending(&mut record));
    match download2(true, &mut record, FileProbe::Missing) {
        DownloadOutcome::Failed(text) => assert!(text.ends_with("download attempt #3 failed: x\n")),
        other => panic!("unexpected outcome {:?}", other),
    }
}

#[test]
fn fail_count_saturates() {
    let mut record: RequestRecord<u32> = RequestRecord {
        final_entry: Some(DownloadEntry {
            parse_result: None,
            error_txt: String::new(),
            fail_count: 255,
        }),
        pending: Some(true),
    };
    assert_eq!(do_download(&mut record, Err("x".to_string()), 255), FollowUp::GivenUp);
    assert_eq!(entry_of(&record).fail_count, 255);
}

#[test]
fn restart_requeues_what_was_running() {
    let mut record = empty_record();
    download2(true, &mut record, FileProbe::Missing);
    claim_pending(&mut record);
    reset_pending_on_startup(&mut record);
    assert_eq!(record.pending, Some(false));
    let mut untouched = empty_record();
    reset_pending_on_startup(&mut untouched);
    assert_eq!(untouched.pending, None);
}

#[test]
fn loop_round_marks_and_lists_what_was_not_running() {
    let mut running = vec![true, false, false, true, false];
    assert_eq!(download_loop(&mut running), vec![1, 2, 4]);
    assert_eq!(running, vec![true; 5]);
    assert_eq!(download_loop(&mut running), Vec::<usize>::new());
    download_loop_startup(&mut running);
    assert_eq!(running, vec![false; 5]);
    assert_eq!(download_loop(&mut running), vec![0, 1, 2, 3, 4]);
}

#[test]
fn table_names_tell_types_and_versions_apart() {
    assert_eq!(get_table_name("TileFetchId", "()", "final", 0), "TileFetchId__()__final_v0");
    assert_eq!(get_table_name("TileFetchId", "()", "pending", 12), "TileFetchId__()__pending_v12");
    assert_ne!(get_table_name("A", "B", "final", 1), get_table_name("A", "B", "final", 2));
}

#[test]
fn proxy_race() {
    let mut race = DownloadRace::new(5);
    assert_eq!(race.verdict(), RaceVerdict::Running);
    assert_eq!(race.attempt_finished(0, false, "proxy 0 refused"), RaceVerdict::Running);
    assert_eq!(race.attempt_finished(2, true, ""), RaceVerdict::Won(2));
    assert_eq!(race.losers(), vec![0, 1, 3, 4]);
    assert_eq!(race.attempt_finished(3, true, ""), RaceVerdict::Won(2));
    assert_eq!(race.attempt_finished(1, false, "late"), RaceVerdict::Won(2));
    assert_eq!(race.verdict(), RaceVerdict::Won(2));
    assert_eq!(race.losers(), vec![0, 1, 3, 4]);
    let mut record = empty_record();
    download2(true, &mut record, FileProbe::Missing);
    claim_pending(&mut record);
    assert_eq!(do_download(&mut record, Ok(2), 3), FollowUp::Done);
    assert_eq!(do_download(&mut record, Ok(3), 3), FollowUp::Ignored);
    assert_eq!(entry_of(&record).parse_result, Some(2));
}

#[test]
fn race_is_lost_when_every_attempt_failed() {
    let mut race = DownloadRace::new(3);
    assert_eq!(race.attempt_finished(1, false, "b"), RaceVerdict::Running);
    assert_eq!(race.attempt_finished(1, false, "again"), RaceVerdict::Running);
    assert_eq!(race.attempt_finished(7, false, "nobody"), RaceVerdict::Running);
    assert_eq!(race.attempt_finished(0, false, "a"), RaceVerdict::Running);
    assert_eq!(race.attempt_finished(2, false, "c"), RaceVerdict::Lost);
    assert_eq!(race.error_text(), "err: cannot download. see below: \nb\na\nc\n");
    assert_eq!(race.losers(), vec![0, 1, 2]);
    assert_eq!(race.attempt_finished(2, true, ""), RaceVerdict::Lost);
}

#[test]
fn race_without_attempts_is_lost() {
    let race = DownloadRace::new(0);
    assert_eq!(race.verdict(), RaceVerdict::Lost);
    assert_eq!(race.error_text(), "err: cannot download. see below: \n");
}

#[test]
fn request_kinds_have_their_own_trees_and_retries() {
    assert_eq!(RequestKind::Tile.get_retry_count(), 3);
    assert_eq!(RequestKind::GeoSearch.get_retry_count(), 3);
    assert_eq!(RequestKind::OvertureSegment.get_retry_count(), 2);
    assert_eq!(RequestKind::Tile.get_version(), 0);
    assert_eq!(RequestKind::OvertureSegment.get_version(), 3);
    assert_eq!(RequestKind::Tile.get_table_name("final"), "TileFetchId__()__final_v0");
    assert_eq!(
        RequestKind::GeoSearch.get_table_name("pending"),
        "OSMGeolocationSearchQuery__Vec<OSMGeolocationSearchResult>__pending_v0"
    );
    assert_eq!(
        RequestKind::OvertureSegment.get_table_name("final"),
        "OvertureMapsSegment__GeoDuckSegmentSummary__final_v3"
    );
}

#[test]
fn records_from_storage_are_made_consistent() {
    let mut orphan: RequestRecord<u32> = RequestRecord { final_entry: None, pending: Some(true) };
    repair_record(&mut orphan);
    assert_eq!(orphan.pending, None);
    let mut won: RequestRecord<u32> = RequestRecord {
        final_entry: Some(DownloadEntry { parse_result: Some(1), error_txt: String::new(), fail_count: 0 }),
        pending: Some(false),
    };
    repair_record(&mut won);
    assert_eq!(won.pending, None);
    assert_eq!(entry_of(&won).parse_result, Some(1));
    let mut queued: RequestRecord<u32> = RequestRecord {
        final_entry: Some(DownloadEntry { parse_result: None, error_txt: "e".to_string(), fail_count: 1 }),
        pending: Some(true),
    };
    repair_record(&mut queued);
    assert_eq!(queued.pending, Some(true));
    assert_eq!(entry_of(&queued).error_txt, "e");
}

#[test]
fn each_download_loop_is_started_once() {
    let mut loops = FetcherRegistry::new();
    assert!(loops.ensure_spawned_download_loop(RequestKind::Tile));
    assert!(!loops.ensure_spawned_download_loop(RequestKind::Tile));
    assert!(loops.ensure_spawned_download_loop(RequestKind::GeoSearch));
    assert!(loops.ensure_spawned_download_loop(RequestKind::OvertureSegment));
    assert!(!loops.ensure_spawned_download_loop(RequestKind::GeoSearch));
    assert!(!loops.ensure_spawned_download_loop(RequestKind::Tile));
}
