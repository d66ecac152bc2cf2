use rustynzb::codec::encode_article;
use rustynzb::download::assemble;
use rustynzb::download::Downloader;
use rustynzb::download::StoreAction;
use rustynzb::download::StoreEvent;
use rustynzb::entities::NzbFile;
use rustynzb::entities::Segment;
use rustynzb::errors::DecodeError;
use rustynzb::errors::FileDownloadError;

fn one_segment_file(groups: Vec<&str>) -> NzbFile {
    NzbFile::new(
        "target.bin".to_string(),
        groups.into_iter().map(|g| g.to_string()).collect(),
        vec![Segment::new(100, 1, "seg1@example.invalid".to_string())],
    )
}

fn expect_select(d: &Downloader, index: usize) {
    match d.next_action() {
        StoreAction::SelectGroup { index: i } => assert_eq!(i, index),
        other => panic!("expected a group select, got {:?}", other),
    }
}

fn expect_fetch(d: &Downloader, id: &str) {
    match d.next_action() {
        StoreAction::FetchArticle { message_id } => assert_eq!(message_id, id),
        other => panic!("expected a fetch, got {:?}", other),
    }
}

#[test]
fn failover_selects_second_group_before_the_successful_fetch() {
    // Scenario: groups ["g.a", "g.b"]; the fetch fails on g.a and
    // succeeds on g.b.
    let payload = b"decoded segment payload".to_vec();
    let article = encode_article(&payload);
    let mut d = Downloader::new(one_segment_file(vec!["g.a", "g.b"]));

    expect_select(&d, 0);
    assert_eq!(d.on_event(StoreEvent::SelectOk), Ok(false));
    expect_fetch(&d, "<seg1@example.invalid>");
    assert_eq!(d.on_event(StoreEvent::FetchFailed), Ok(false));
    // The next candidate group differs from the selected one, so the
    // machine asks for a select of g.b before fetching again.
    expect_select(&d, 1);
    assert_eq!(d.on_event(StoreEvent::SelectOk), Ok(false));
    expect_fetch(&d, "<seg1@example.invalid>");
    assert_eq!(d.on_event(StoreEvent::FetchOk { body: article }), Ok(true));
    match d.next_action() {
        StoreAction::Finished => {},
        other => panic!("expected Finished, got {:?}", other),
    }

    let (filename, buffers) = d.into_output();
    assert_eq!(filename, "target.bin");
    assert_eq!(buffers, vec![payload.clone()]);
    assert_eq!(assemble(&buffers), payload);
}

#[test]
fn exhausting_the_only_group_fails_the_file() {
    // Scenario: one group, one segment; the fetch fails on the only
    // group, so the file fails and hands out no output.
    let mut d = Downloader::new(one_segment_file(vec!["g.only"]));
    expect_select(&d, 0);
    assert_eq!(d.on_event(StoreEvent::SelectOk), Ok(false));
    expect_fetch(&d, "<seg1@example.invalid>");
    assert_eq!(
        d.on_event(StoreEvent::FetchFailed),
        Err(FileDownloadError::GroupsExhausted)
    );
}

#[test]
fn group_select_failure_is_fatal_for_the_file() {
    let mut d = Downloader::new(one_segment_file(vec!["g.a", "g.b"]));
    expect_select(&d, 0);
    assert_eq!(
        d.on_event(StoreEvent::SelectFailed),
        Err(FileDownloadError::GroupSelectFailed)
    );
}

#[test]
fn decode_failure_aborts_the_file_without_retrying_other_groups() {
    // Scenario: the article body holds no begin-marker line, so the
    // frame extractor fails and the file is dropped, with no retry
    // against the second group.
    let mut d = Downloader::new(one_segment_file(vec!["g.a", "g.b"]));
    expect_select(&d, 0);
    assert_eq!(d.on_event(StoreEvent::SelectOk), Ok(false));
    expect_fetch(&d, "<seg1@example.invalid>");
    let body = b"no marker anywhere\r\n".to_vec();
    assert_eq!(
        d.on_event(StoreEvent::FetchOk { body }),
        Err(FileDownloadError::Decode(DecodeError::NoBeginMarker))
    );
}

#[test]
fn same_group_is_not_reselected_between_segments() {
    let payload_a = b"first".to_vec();
    let payload_b = b"second".to_vec();
    let file = NzbFile::new(
        "two.bin".to_string(),
        vec!["g.x".to_string()],
        vec![
            Segment::new(10, 1, "a@x".to_string()),
            Segment::new(10, 2, "b@x".to_string()),
        ],
    );
    let mut d = Downloader::new(file);
    expect_select(&d, 0);
    assert_eq!(d.on_event(StoreEvent::SelectOk), Ok(false));
    expect_fetch(&d, "<a@x>");
    assert_eq!(
        d.on_event(StoreEvent::FetchOk { body: encode_article(&payload_a) }),
        Ok(false)
    );
    // The second segment restarts at the first candidate group, which is
    // the one already selected: no second select is issued.
    expect_fetch(&d, "<b@x>");
    assert_eq!(
        d.on_event(StoreEvent::FetchOk { body: encode_article(&payload_b) }),
        Ok(true)
    );
    let (_, buffers) = d.into_output();
    assert_eq!(assemble(&buffers), b"firstsecond".to_vec());
}

#[test]
fn assemble_concatenates_in_order() {
    let buffers = vec![vec![1u8, 2], vec![], vec![3u8, 4, 5]];
    assert_eq!(assemble(&buffers), vec![1u8, 2, 3, 4, 5]);
    assert_eq!(assemble(&Vec::new()), Vec::<u8>::new());
}
