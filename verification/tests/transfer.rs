use kvstore::egress::Egress;
use kvstore::ingest::{Ingest, Progress};
use kvstore::response::Status;
use kvstore::store::{Appending, Removal, Store};

fn go_on(progress: Progress) -> Ingest {
    match progress {
        Progress::Continue(ingest) => ingest,
        Progress::Finished(response) => panic!("upload ended early: {:?}", response),
    }
}

#[test]
fn egress_sends_the_snapshot_in_limited_chunks() {
    let mut egress = Egress::new(b"hello".to_vec());
    assert_eq!(egress.len(), 5);
    assert!(!egress.is_finished());
    assert_eq!(egress.next_chunk(2), Some(b"he".to_vec()));
    assert_eq!(egress.next_chunk(2), Some(b"ll".to_vec()));
    assert!(!egress.is_finished());
    assert_eq!(egress.next_chunk(2), Some(b"o".to_vec()));
    assert!(egress.is_finished());
    assert_eq!(egress.next_chunk(2), None);
}

#[test]
fn egress_stays_finished_and_never_repeats() {
    let mut egress = Egress::new(b"abc".to_vec());
    assert_eq!(egress.next_chunk(10), Some(b"abc".to_vec()));
    for limit in [0, 1, 3, 10] {
        assert_eq!(egress.next_chunk(limit), None);
        assert!(egress.is_finished());
    }
    assert!(egress.drain(1).is_empty());
}

#[test]
fn egress_without_limit_sends_one_chunk() {
    let mut egress = Egress::new(b"hello world".to_vec());
    assert_eq!(egress.next_chunk(0), Some(b"hello world".to_vec()));
    assert_eq!(egress.next_chunk(0), None);
}

#[test]
fn egress_limit_may_change_between_chunks() {
    let mut egress = Egress::new(b"abcdefgh".to_vec());
    assert_eq!(egress.next_chunk(1), Some(b"a".to_vec()));
    assert_eq!(egress.next_chunk(3), Some(b"bcd".to_vec()));
    assert_eq!(egress.next_chunk(usize::MAX), Some(b"efgh".to_vec()));
    assert_eq!(egress.next_chunk(1), None);
}

#[test]
fn egress_of_an_empty_value_ends_at_once() {
    let mut egress = Egress::new(Vec::new());
    assert_eq!(egress.len(), 0);
    assert!(egress.is_finished());
    assert_eq!(egress.next_chunk(4), None);
    assert!(egress.drain(4).is_empty());
}

#[test]
fn drain_cuts_the_rest_into_chunks_that_join_to_it() {
    let mut egress = Egress::new(b"0123456789".to_vec());
    let chunks = egress.drain(4);
    assert_eq!(chunks, vec![b"0123".to_vec(), b"4567".to_vec(), b"89".to_vec()]);
    assert_eq!(chunks.concat(), b"0123456789".to_vec());
    assert!(egress.is_finished());

    let mut partly = Egress::new(b"0123456789".to_vec());
    assert_eq!(partly.next_chunk(3), Some(b"012".to_vec()));
    assert_eq!(partly.drain(5), vec![b"34567".to_vec(), b"89".to_vec()]);

    let mut whole = Egress::new(b"0123456789".to_vec());
    assert_eq!(whole.drain(0), vec![b"0123456789".to_vec()]);
}

#[test]
fn total_sent_is_the_snapshot_length_for_every_limit() {
    let data: Vec<u8> = (0u8..=200).collect();
    for limit in [0usize, 1, 2, 7, 64, 200, 201, 202, 1000] {
        let mut egress = Egress::new(data.clone());
        let mut got: Vec<u8> = Vec::new();
        let mut rounds = 0;
        while let Some(chunk) = egress.next_chunk(limit) {
            assert!(!chunk.is_empty());
            if limit > 0 {
                assert!(chunk.len() <= limit);
            }
            got.extend_from_slice(&chunk);
            rounds += 1;
            assert!(rounds <= data.len());
        }
        assert_eq!(got, data);
    }
}

#[test]
fn begin_creates_the_key_empty() {
    let mut store = Store::new();
    let ingest = Ingest::begin(&mut store, "a").expect("the key is new");
    assert_eq!(ingest.target(), "a");
    assert_eq!(store.get("a"), Some(Vec::new()));
}

#[test]
fn begin_on_existing_key_is_refused_and_changes_nothing() {
    let mut store = Store::new();
    let ingest = Ingest::begin(&mut store, "a").expect("the key is new");
    let ingest = go_on(ingest.take(&mut store, b"hello"));
    assert!(Ingest::begin(&mut store, "a").is_none());
    assert_eq!(store.get("a"), Some(b"hello".to_vec()));
    assert_eq!(ingest.finish().status, Status::Success);
}

#[test]
fn chunks_are_stored_as_they_arrive() {
    let mut store = Store::new();
    let ingest = Ingest::begin(&mut store, "a").expect("the key is new");
    let ingest = go_on(ingest.take(&mut store, b"he"));
    assert_eq!(store.get("a"), Some(b"he".to_vec()));
    let ingest = go_on(ingest.take(&mut store, b""));
    let ingest = go_on(ingest.take(&mut store, b"llo"));
    assert_eq!(store.get("a"), Some(b"hello".to_vec()));
    let response = ingest.finish();
    assert_eq!(response.status, Status::Success);
    assert_eq!(response.body, "Data were succesfully put.");
    assert_eq!(store.get("a"), Some(b"hello".to_vec()));
}

#[test]
fn upload_without_body_leaves_an_empty_value() {
    let mut store = Store::new();
    let ingest = Ingest::begin(&mut store, "a").expect("the key is new");
    assert_eq!(ingest.finish().status.code(), 200);
    assert_eq!(store.get("a"), Some(Vec::new()));
}

#[test]
fn chunk_for_a_deleted_key_ends_the_upload_with_a_conflict() {
    let mut store = Store::new();
    let ingest = Ingest::begin(&mut store, "a").expect("the key is new");
    let ingest = go_on(ingest.take(&mut store, b"he"));
    assert_eq!(store.delete("a"), Removal::Removed);
    match ingest.take(&mut store, b"llo") {
        Progress::Finished(response) => {
            assert_eq!(response.status, Status::Conflict);
            assert_eq!(response.status.code(), 409);
            assert_eq!(response.body, "Key a was deleted while its data were put.");
        }
        Progress::Continue(_) => panic!("the key is gone"),
    }
    assert_eq!(store.get("a"), None);
}

#[test]
fn failed_body_ends_the_upload_with_a_server_error() {
    let mut store = Store::new();
    let ingest = Ingest::begin(&mut store, "a").expect("the key is new");
    let ingest = go_on(ingest.take(&mut store, b"he"));
    let response = ingest.abandon();
    assert_eq!(response.status, Status::InternalError);
    assert_eq!(response.status.code(), 500);
    assert_eq!(response.body, "Data for key a could not be read.");
    assert_eq!(store.get("a"), Some(b"he".to_vec()));
}

#[test]
fn failure_of_one_upload_leaves_another_untouched() {
    let mut store = Store::new();
    let one = Ingest::begin(&mut store, "one").expect("the key is new");
    let other = Ingest::begin(&mut store, "other").expect("the key is new");
    let one = go_on(one.take(&mut store, b"11"));
    let other = go_on(other.take(&mut store, b"22"));
    assert_eq!(one.abandon().status, Status::InternalError);
    let other = go_on(other.take(&mut store, b"33"));
    assert_eq!(other.finish().status, Status::Success);
    assert_eq!(store.get("other"), Some(b"2233".to_vec()));
}

#[test]
fn interleaved_uploads_keep_their_own_bytes() {
    let mut store = Store::new();
    let first = Ingest::begin(&mut store, "k1").expect("the key is new");
    let first = go_on(first.take(&mut store, b"aa"));
    let second = Ingest::begin(&mut store, "k2").expect("the key is new");
    let second = go_on(second.take(&mut store, b"11"));
    let first = go_on(first.take(&mut store, b"bb"));
    let second = go_on(second.take(&mut store, b"22"));
    let second = go_on(second.take(&mut store, b"33"));
    let first = go_on(first.take(&mut store, b"cc"));
    assert_eq!(first.finish().body, "Data were succesfully put.");
    assert_eq!(second.finish().body, "Data were succesfully put.");
    assert_eq!(store.get("k1"), Some(b"aabbcc".to_vec()));
    assert_eq!(store.get("k2"), Some(b"112233".to_vec()));
}

#[test]
fn fetch_during_an_upload_sees_only_what_was_stored_by_then() {
    let mut store = Store::new();
    let ingest = Ingest::begin(&mut store, "a").expect("the key is new");
    let ingest = go_on(ingest.take(&mut store, b"hello"));
    let mut egress = Egress::new(store.get("a").expect("the key is there"));
    assert_eq!(egress.next_chunk(3), Some(b"hel".to_vec()));
    let _ingest = go_on(ingest.take(&mut store, b" world"));
    assert_eq!(store.append("a", b"!"), Appending::Appended);
    assert_eq!(egress.next_chunk(100), Some(b"lo".to_vec()));
    assert_eq!(egress.next_chunk(100), None);
    assert_eq!(store.get("a"), Some(b"hello world!".to_vec()));
}

#[test]
fn two_uploads_are_both_accepted_in_every_order_of_their_steps() {
    let first_body: [&[u8]; 3] = [b"aa", b"", b"bbb"];
    let second_body: [&[u8]; 3] = [b"1", b"22", b"333"];
    // Each upload has five steps: create, three chunks, the end of the body.
    // A schedule says for each of the ten steps whose turn it is.
    for schedule in 0u32..1024 {
        if schedule.count_ones() != 5 {
            continue;
        }
        let mut store = Store::new();
        let mut uploads: [Option<Ingest>; 2] = [None, None];
        let mut done = [0usize; 2];
        let mut answers: [Option<String>; 2] = [None, None];
        for turn in 0..10 {
            let who = ((schedule >> turn) & 1) as usize;
            let key = if who == 0 { "k1" } else { "k2" };
            let body = if who == 0 { &first_body } else { &second_body };
            match done[who] {
                0 => uploads[who] = Some(Ingest::begin(&mut store, key).expect("the key is new")),
                4 => {
                    let response = uploads[who].take().expect("the upload began").finish();
                    assert_eq!(response.status, Status::Success);
                    answers[who] = Some(response.body);
                }
                step => {
                    let ingest = uploads[who].take().expect("the upload began");
                    uploads[who] = Some(go_on(ingest.take(&mut store, body[step - 1])));
                }
            }
            done[who] += 1;
        }
        assert_eq!(answers[0].as_deref(), Some("Data were succesfully put."));
        assert_eq!(answers[1].as_deref(), Some("Data were succesfully put."));
        assert_eq!(store.get("k1"), Some(b"aabbb".to_vec()));
        assert_eq!(store.get("k2"), Some(b"122333".to_vec()));
    }
}
