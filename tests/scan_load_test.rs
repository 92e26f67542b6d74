use barn::barn::Barn;
use barn::codec::enc_pk;
use barn::conf::DbConf;
use barn::errors::{BarnError, LoadError};
use barn::json::JsonValue;
use barn::loader::{LineSplitter, LoadStep, Loader, _load_data};
use barn::scan::{search_data, write_record, RowStatus, ScanAction, Scanner};

fn store() -> Barn {
    Barn::open(&DbConf::new(10240, true, "Business".to_string()), JsonValue::Object(vec![])).unwrap()
}

#[test]
fn scan_skips_sentinel() {
    let mut sc = Scanner::new();
    assert_eq!(sc.start_key(), enc_pk(1));
    let mut sent = 0;
    let mut rows = vec![enc_pk(0)];
    for pk in 1..=7u64 {
        rows.push(enc_pk(pk));
    }
    for k in &rows {
        if sc.on_row(k, RowStatus::Match) == ScanAction::Send {
            sent += 1;
            sc.on_sent(true);
        }
    }
    assert_eq!(sent, 7);
    assert!(!sc.done);
}

#[test]
fn scan_cancellation() {
    let mut sc = Scanner::new();
    let mut consumed = 0;
    let mut looked_at = 0;
    for pk in 1..=1000u64 {
        looked_at += 1;
        match sc.on_row(&enc_pk(pk), RowStatus::Match) {
            ScanAction::Send => {
                let receiver_alive = consumed < 10;
                if receiver_alive {
                    consumed += 1;
                }
                sc.on_sent(receiver_alive);
            }
            ScanAction::Skip => {}
            ScanAction::Stop => break,
        }
    }
    assert_eq!(consumed, 10);
    assert!(sc.done);
    assert_eq!(looked_at, 12);
    assert_eq!(sc.on_row(&enc_pk(500), RowStatus::Match), ScanAction::Stop);
}

#[test]
fn scan_stops_on_undecodable_row_and_skips_non_matching() {
    let mut sc = Scanner::new();
    assert_eq!(sc.on_row(&enc_pk(1), RowStatus::NoMatch), ScanAction::Skip);
    assert_eq!(sc.on_row(&enc_pk(2), RowStatus::Undecodable), ScanAction::Stop);
    assert!(sc.done);
    let mut sc = Scanner::new();
    sc.on_end();
    assert!(sc.done);
}

#[test]
fn search_errors() {
    let barn = store();
    assert_eq!(barn.search("Unknown", true).err(), Some(BarnError::UnknownResourceName));
    assert_eq!(barn.search("Business", false).err(), Some(BarnError::BadSearchFilter));
    assert!(!barn.search("Business", true).unwrap().done);
    let msgs = vec![Some(b"{}".to_vec())];
    let mut out = b"x".to_vec();
    assert_eq!(search_data(&barn, "Unknown", true, &msgs, &mut out), Err(LoadError::SearchError));
    assert_eq!(search_data(&barn, "Business", false, &msgs, &mut out), Err(LoadError::SearchError));
    assert_eq!(out, b"x".to_vec());
    assert_eq!(search_data(&barn, "Business", true, &msgs, &mut out), Ok(()));
    assert_eq!(out, b"x{}\n".to_vec());
}

#[test]
fn search_output_frames_each_received_document() {
    let barn = store();
    let msgs = vec![Some(b"{\"a\":1}".to_vec()), None, Some(b"{}".to_vec())];
    let mut out = Vec::new();
    assert_eq!(search_data(&barn, "Business", true, &msgs, &mut out), Ok(()));
    assert_eq!(out, b"{\"a\":1}\n{}\n".to_vec());
}

#[test]
fn records_are_written_one_per_line() {
    let mut out = Vec::new();
    write_record(&mut out, &b"{\"a\":1}".to_vec());
    write_record(&mut out, &b"{}".to_vec());
    assert_eq!(out, b"{\"a\":1}\n{}\n".to_vec());
}

#[test]
fn splitter_carries_residue_across_reads() {
    let mut sp = LineSplitter::new();
    let l1 = sp.feed(&b"{\"a\":1}\n{\"b\"".to_vec());
    assert_eq!(l1, vec![b"{\"a\":1}".to_vec()]);
    assert_eq!(sp.residue, b"{\"b\"".to_vec());
    let l2 = sp.feed(&b":2}\n\n{\"c\":3}\n".to_vec());
    assert_eq!(l2, vec![b"{\"b\":2}".to_vec(), b"".to_vec(), b"{\"c\":3}".to_vec()]);
    assert!(sp.residue.is_empty());
    let l3 = sp.feed(&b"tail".to_vec());
    assert!(l3.is_empty());
    assert_eq!(sp.residue, b"tail".to_vec());
}

#[test]
fn feeding_in_pieces_matches_one_read() {
    let input = b"{\"a\":1}\n{\"b\":22}\n\n{\"c\":333}\npartial".to_vec();
    let mut whole = LineSplitter::new();
    let all = whole.feed(&input);
    for cut in 0..=input.len() {
        let mut sp = LineSplitter::new();
        let mut lines = sp.feed(&input[..cut].to_vec());
        lines.extend(sp.feed(&input[cut..].to_vec()));
        assert_eq!(lines, all);
        assert_eq!(sp.residue, whole.residue);
    }
    assert_eq!(all.len(), 4);
    assert_eq!(whole.residue, b"partial".to_vec());
}

fn run(ignore_errors: bool) -> (Loader, Option<LoadError>, Vec<u64>) {
    let records = ["valid", "valid", "{not json", "valid"];
    let mut l = Loader::new(ignore_errors);
    let mut pks = Vec::new();
    let mut next_pk = 1;
    for r in records.iter() {
        let step = if *r == "valid" {
            pks.push(next_pk);
            next_pk += 1;
            l.on_inserted(Ok(()))
        } else {
            l.on_unreadable()
        };
        if let LoadStep::Fail(e) = step {
            return (l, Some(e), pks);
        }
    }
    (l, None, pks)
}

#[test]
fn bulk_load_with_one_bad_record() {
    let (l, err, pks) = run(true);
    assert_eq!(err, None);
    assert_eq!(l.inserted, 3);
    assert_eq!(l.skipped, 1);
    assert_eq!(pks, vec![1, 2, 3]);

    let (l, err, pks) = run(false);
    assert_eq!(err, Some(LoadError::InvalidRecord));
    assert_eq!(l.inserted, 2);
    assert_eq!(pks, vec![1, 2]);
}

#[test]
fn insertion_failure_ends_load() {
    let mut l = Loader::new(true);
    assert_eq!(
        l.on_inserted(Err(BarnError::TxWriteError)),
        LoadStep::Fail(LoadError::InsertionError(BarnError::TxWriteError))
    );
    assert_eq!(l.inserted, 0);
}

#[test]
fn load_needs_known_resource() {
    let barn = store();
    assert_eq!(
        _load_data(&barn, "Nope", true).err(),
        Some(LoadError::InsertionError(BarnError::UnknownResourceName))
    );
    let l = _load_data(&barn, "Business", false).unwrap();
    assert!(!l.ignore_errors);
}
