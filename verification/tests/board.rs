use guild_core::{
    delist_request, get_all_requests, publish, publish_encoded, Board, BoardError, DraftedRequest,
    Identifier, LabelRow, Request, RequestRow, Rewardable, TagRow,
};

/// A payload without content, written as JSON `null`.
#[derive(Debug, PartialEq)]
struct K;

impl Rewardable for K {
    fn encode(&self) -> Option<String> {
        serde_json::to_string(&()).ok()
    }

    fn decode(text: &str) -> Option<Self> {
        serde_json::from_str::<()>(text).ok().map(|_| K)
    }
}

/// A number of coins, written as a JSON number.
#[derive(Debug, PartialEq)]
struct Coins(u64);

impl Rewardable for Coins {
    fn encode(&self) -> Option<String> {
        serde_json::to_string(&self.0).ok()
    }

    fn decode(text: &str) -> Option<Self> {
        serde_json::from_str::<u64>(text).ok().map(Coins)
    }
}

/// A payload that cannot be put into text.
#[derive(Debug, PartialEq)]
struct Unspeakable;

impl Rewardable for Unspeakable {
    fn encode(&self) -> Option<String> {
        None
    }

    fn decode(_text: &str) -> Option<Self> {
        None
    }
}

fn s(text: &str) -> String {
    text.to_string()
}

const CLIENT: u128 = 0x11111111222233334444555555555555;
const FIRST: u128 = 0xa1a2a3a4b1b2c1c2d1d2d3d4d5d6d7d8;
const SECOND: u128 = 0x550e8400e29b41d4a716446655440000;
const FIRST_TEXT: &str = "a1a2a3a4-b1b2-c1c2-d1d2-d3d4d5d6d7d8";
const SECOND_TEXT: &str = "550e8400-e29b-41d4-a716-446655440000";
const CLIENT_TEXT: &str = "11111111-2222-3333-4444-555555555555";

fn sample<T: Rewardable>(id: u128, reward: Option<T>) -> Request<T> {
    DraftedRequest::with_id(
        Identifier::from_u128(id),
        s("Sample Request"),
        s("This is a sample request description."),
        Some(vec![(s("priority"), s("high")), (s("area"), s("garden"))]),
        Some(vec![s("urgent")]),
        Identifier::from_u128(CLIENT),
    )
    .advance(reward)
}

fn parent(id: &str, reward: Option<&str>, client: &str) -> RequestRow {
    RequestRow {
        id: s(id),
        title: s("Sample Request"),
        description: s("This is a sample request description."),
        reward: reward.map(s),
        client_id: s(client),
    }
}

#[test]
fn new_board_is_empty() {
    let board = Board::new();
    assert_eq!(board.len(), 0);
    assert!(board.requests().is_empty());
    assert!(board.labels().is_empty());
    assert!(board.tags().is_empty());
    assert!(!board.holds(&s(FIRST_TEXT)));
    assert_eq!(get_all_requests::<K>(&board).unwrap().len(), 0);
}

#[test]
fn publish_writes_parent_label_and_tag_records() {
    let mut board = Board::new();
    let request = sample(FIRST, Some(Coins(7)));
    assert_eq!(publish(&mut board, &request), Ok(()));
    assert_eq!(board.len(), 1);
    assert_eq!(board.requests(), &vec![parent(FIRST_TEXT, Some("7"), CLIENT_TEXT)]);
    assert_eq!(
        board.labels(),
        &vec![
            LabelRow { request_id: s(FIRST_TEXT), key: s("priority"), value: s("high") },
            LabelRow { request_id: s(FIRST_TEXT), key: s("area"), value: s("garden") },
        ]
    );
    assert_eq!(board.tags(), &vec![TagRow { request_id: s(FIRST_TEXT), tag: s("urgent") }]);
    assert!(board.holds(&s(FIRST_TEXT)));
    assert!(!board.holds(&s(SECOND_TEXT)));
}

#[test]
fn publish_without_reward_stores_no_reward_text() {
    let mut board = Board::new();
    let request = sample::<K>(FIRST, None);
    assert_eq!(publish(&mut board, &request), Ok(()));
    assert_eq!(board.requests()[0].reward, None);
    let listed = get_all_requests::<K>(&board).unwrap();
    assert_eq!(listed.len(), 1);
    assert_eq!(listed[0].reward(), None);
}

#[test]
fn unit_reward_is_stored_as_null() {
    let mut board = Board::new();
    let request = sample(FIRST, Some(K));
    assert_eq!(publish(&mut board, &request), Ok(()));
    assert_eq!(board.requests()[0].reward, Some(s("null")));
    let listed = get_all_requests::<K>(&board).unwrap();
    assert_eq!(listed[0].reward(), Some(&K));
}

#[test]
fn list_after_publish_gives_the_request_back() {
    let mut board = Board::new();
    let request = sample(FIRST, Some(Coins(250)));
    publish(&mut board, &request).unwrap();
    let listed = get_all_requests::<Coins>(&board).unwrap();
    assert_eq!(listed.len(), 1);
    let read = &listed[0];
    assert_eq!(read.get_id(), request.get_id());
    assert_eq!(read.get_id().as_u128(), FIRST);
    assert_eq!(read.title(), "Sample Request");
    assert_eq!(read.description(), "This is a sample request description.");
    assert_eq!(read.client_id().as_u128(), CLIENT);
    assert_eq!(read.metadata(), request.metadata());
    assert_eq!(read.metadata().label(&s("priority")), Some(&s("high")));
    assert_eq!(read.metadata().label(&s("area")), Some(&s("garden")));
    assert!(read.metadata().has_tag(&s("urgent")));
    assert_eq!(read.reward(), Some(&Coins(250)));
}

#[test]
fn list_keeps_the_metadata_of_each_request_apart() {
    let mut board = Board::new();
    let first = sample::<K>(FIRST, None);
    let second = DraftedRequest::with_id(
        Identifier::from_u128(SECOND),
        s("Other"),
        s(""),
        Some(vec![(s("priority"), s("low"))]),
        None,
        Identifier::from_u128(CLIENT),
    )
    .advance::<K>(None);
    publish(&mut board, &first).unwrap();
    publish(&mut board, &second).unwrap();
    let listed = get_all_requests::<K>(&board).unwrap();
    assert_eq!(listed.len(), 2);
    assert_eq!(listed[0].get_id().as_u128(), FIRST);
    assert_eq!(listed[0].metadata().labels().len(), 2);
    assert_eq!(listed[0].metadata().label(&s("priority")), Some(&s("high")));
    assert_eq!(listed[0].metadata().tags(), &vec![s("urgent")]);
    assert_eq!(listed[1].get_id().as_u128(), SECOND);
    assert_eq!(listed[1].title(), "Other");
    assert_eq!(listed[1].description(), "");
    assert_eq!(listed[1].metadata().labels(), &vec![(s("priority"), s("low"))]);
    assert!(listed[1].metadata().tags().is_empty());
}

#[test]
fn second_publish_of_an_identifier_is_a_conflict() {
    let mut board = Board::new();
    let first = sample(FIRST, Some(Coins(1)));
    let again = DraftedRequest::with_id(
        Identifier::from_u128(FIRST),
        s("Impostor"),
        s("reuses the identifier"),
        None,
        Some(vec![s("other")]),
        Identifier::from_u128(CLIENT),
    )
    .advance(Some(Coins(2)));
    assert_eq!(publish(&mut board, &first), Ok(()));
    let before = format!("{:?}", board);
    assert_eq!(publish(&mut board, &again), Err(BoardError::Conflict));
    assert_eq!(format!("{:?}", board), before);
    let listed = get_all_requests::<Coins>(&board).unwrap();
    assert_eq!(listed.len(), 1);
    assert_eq!(listed[0].title(), "Sample Request");
    assert_eq!(listed[0].reward(), Some(&Coins(1)));
    assert_eq!(board.tags().len(), 1);
}

#[test]
fn publish_conflicts_with_orphaned_records() {
    let mut board = Board::load(
        vec![],
        vec![LabelRow { request_id: s(FIRST_TEXT), key: s("stale"), value: s("x") }],
        vec![],
    )
    .unwrap();
    assert!(board.holds(&s(FIRST_TEXT)));
    assert_eq!(publish(&mut board, &sample::<K>(FIRST, None)), Err(BoardError::Conflict));
    assert_eq!(board.len(), 0);
    assert_eq!(board.labels().len(), 1);
}

#[test]
fn reward_without_text_fails_publish_and_writes_nothing() {
    let mut board = Board::new();
    publish(&mut board, &sample::<K>(SECOND, None)).unwrap();
    let request = sample(FIRST, Some(Unspeakable));
    assert_eq!(publish(&mut board, &request), Err(BoardError::Serialization));
    assert_eq!(board.len(), 1);
    assert!(!board.holds(&s(FIRST_TEXT)));
    let conflicting = sample(SECOND, Some(Unspeakable));
    assert_eq!(publish(&mut board, &conflicting), Err(BoardError::Serialization));
}

#[test]
fn publish_encoded_stores_the_given_text() {
    let mut board = Board::new();
    let request = sample::<Coins>(FIRST, None);
    assert_eq!(publish_encoded(&mut board, &request, Some(s("12"))), Ok(()));
    assert_eq!(board.requests()[0].reward, Some(s("12")));
    assert_eq!(publish_encoded(&mut board, &request, None), Err(BoardError::Conflict));
    assert_eq!(get_all_requests::<Coins>(&board).unwrap()[0].reward(), Some(&Coins(12)));
}

#[test]
fn delist_removes_every_record_of_the_identifier() {
    let mut board = Board::new();
    publish(&mut board, &sample::<K>(FIRST, None)).unwrap();
    publish(&mut board, &sample::<K>(SECOND, None)).unwrap();
    assert_eq!(delist_request(&mut board, &Identifier::from_u128(FIRST)), Ok(()));
    assert_eq!(board.len(), 1);
    assert!(!board.holds(&s(FIRST_TEXT)));
    assert!(board.holds(&s(SECOND_TEXT)));
    assert!(board.labels().iter().all(|row| row.request_id == SECOND_TEXT));
    assert_eq!(board.labels().len(), 2);
    assert!(board.tags().iter().all(|row| row.request_id == SECOND_TEXT));
    assert_eq!(board.tags().len(), 1);
    let listed = get_all_requests::<K>(&board).unwrap();
    assert_eq!(listed.len(), 1);
    assert_eq!(listed[0].get_id().as_u128(), SECOND);
}

#[test]
fn delist_of_an_absent_identifier_changes_nothing() {
    let mut board = Board::new();
    assert_eq!(delist_request(&mut board, &Identifier::from_u128(FIRST)), Ok(()));
    assert_eq!(board, Board::new());
    publish(&mut board, &sample::<K>(SECOND, None)).unwrap();
    let before = format!("{:?}", board);
    assert_eq!(delist_request(&mut board, &Identifier::from_u128(FIRST)), Ok(()));
    assert_eq!(format!("{:?}", board), before);
    assert_eq!(delist_request(&mut board, &Identifier::from_u128(SECOND)), Ok(()));
    assert_eq!(delist_request(&mut board, &Identifier::from_u128(SECOND)), Ok(()));
    assert_eq!(board, Board::new());
}

#[test]
fn publish_then_delist_leaves_no_orphans() {
    let mut board = Board::new();
    let request = DraftedRequest::new(
        s("Labelled"),
        s("with metadata"),
        Some(vec![(s("priority"), s("high"))]),
        Some(vec![s("urgent")]),
        Identifier::from_u128(CLIENT),
    )
    .advance::<K>(None);
    publish(&mut board, &request).unwrap();
    assert_eq!(board.labels().len(), 1);
    assert_eq!(board.tags().len(), 1);
    delist_request(&mut board, request.get_id()).unwrap();
    assert_eq!(get_all_requests::<K>(&board).unwrap().len(), 0);
    let id = request.get_id().as_str();
    assert!(board.requests().iter().all(|row| row.id != id));
    assert!(board.labels().iter().all(|row| row.request_id != id));
    assert!(board.tags().iter().all(|row| row.request_id != id));
    assert!(board.labels().is_empty());
    assert!(board.tags().is_empty());
}

#[test]
fn delisted_request_can_be_published_again() {
    let mut board = Board::new();
    let request = sample(FIRST, Some(Coins(3)));
    publish(&mut board, &request).unwrap();
    let before = format!("{:?}", board);
    delist_request(&mut board, request.get_id()).unwrap();
    assert_eq!(publish(&mut board, &request), Ok(()));
    assert_eq!(format!("{:?}", board), before);
}

#[test]
fn load_accepts_unique_keys() {
    let board = Board::load(
        vec![parent(FIRST_TEXT, None, CLIENT_TEXT), parent(SECOND_TEXT, Some("5"), CLIENT_TEXT)],
        vec![
            LabelRow { request_id: s(FIRST_TEXT), key: s("a"), value: s("1") },
            LabelRow { request_id: s(SECOND_TEXT), key: s("a"), value: s("2") },
            LabelRow { request_id: s(FIRST_TEXT), key: s("b"), value: s("1") },
        ],
        vec![
            TagRow { request_id: s(FIRST_TEXT), tag: s("t") },
            TagRow { request_id: s(SECOND_TEXT), tag: s("t") },
        ],
    )
    .unwrap();
    let listed = get_all_requests::<Coins>(&board).unwrap();
    assert_eq!(listed.len(), 2);
    assert_eq!(listed[0].metadata().labels(), &vec![(s("a"), s("1")), (s("b"), s("1"))]);
    assert_eq!(listed[0].reward(), None);
    assert_eq!(listed[1].metadata().labels(), &vec![(s("a"), s("2"))]);
    assert_eq!(listed[1].metadata().tags(), &vec![s("t")]);
    assert_eq!(listed[1].reward(), Some(&Coins(5)));
    let stored = board.stored(1);
    assert_eq!(stored.row(), &parent(SECOND_TEXT, Some("5"), CLIENT_TEXT));
    assert_eq!(stored.labels().len(), 1);
    assert_eq!(stored.tags().len(), 1);
}

#[test]
fn load_refuses_duplicate_keys() {
    let twice = Board::load(
        vec![parent(FIRST_TEXT, None, CLIENT_TEXT), parent(FIRST_TEXT, Some("5"), CLIENT_TEXT)],
        vec![],
        vec![],
    );
    assert_eq!(twice, Err(BoardError::Conflict));
    let label_twice = Board::load(
        vec![],
        vec![
            LabelRow { request_id: s(FIRST_TEXT), key: s("a"), value: s("1") },
            LabelRow { request_id: s(FIRST_TEXT), key: s("a"), value: s("2") },
        ],
        vec![],
    );
    assert_eq!(label_twice, Err(BoardError::Conflict));
    let tag_twice = Board::load(
        vec![],
        vec![],
        vec![
            TagRow { request_id: s(FIRST_TEXT), tag: s("t") },
            TagRow { request_id: s(FIRST_TEXT), tag: s("t") },
        ],
    );
    assert_eq!(tag_twice, Err(BoardError::Conflict));
}

#[test]
fn unreadable_client_identifier_fails_the_listing() {
    let board = Board::load(
        vec![parent(FIRST_TEXT, None, CLIENT_TEXT), parent(SECOND_TEXT, None, "client_123")],
        vec![],
        vec![],
    )
    .unwrap();
    assert_eq!(get_all_requests::<K>(&board).err(), Some(BoardError::IdentityFormat));
}

#[test]
fn unreadable_request_identifier_fails_the_listing() {
    let board = Board::load(vec![parent("not-an-id", None, CLIENT_TEXT)], vec![], vec![]).unwrap();
    assert_eq!(get_all_requests::<K>(&board).err(), Some(BoardError::IdentityFormat));
}

#[test]
fn malformed_reward_fails_the_listing() {
    let board = Board::load(
        vec![parent(FIRST_TEXT, Some("7"), CLIENT_TEXT), parent(SECOND_TEXT, Some("{"), CLIENT_TEXT)],
        vec![],
        vec![],
    )
    .unwrap();
    assert_eq!(get_all_requests::<Coins>(&board).err(), Some(BoardError::Serialization));
}

#[test]
fn client_identifier_is_read_before_the_reward_and_the_reward_before_the_identifier() {
    let board =
        Board::load(vec![parent("not-an-id", Some("{"), "client_123")], vec![], vec![]).unwrap();
    assert_eq!(get_all_requests::<Coins>(&board).err(), Some(BoardError::IdentityFormat));
    let board =
        Board::load(vec![parent("not-an-id", Some("{"), CLIENT_TEXT)], vec![], vec![]).unwrap();
    assert_eq!(get_all_requests::<Coins>(&board).err(), Some(BoardError::Serialization));
}

#[test]
fn stored_identifier_in_another_form_is_read() {
    let board = Board::load(
        vec![parent("{A1A2A3A4-B1B2-C1C2-D1D2-D3D4D5D6D7D8}", None, "11111111222233334444555555555555")],
        vec![],
        vec![],
    )
    .unwrap();
    let listed = get_all_requests::<K>(&board).unwrap();
    assert_eq!(listed[0].get_id().as_u128(), FIRST);
    assert_eq!(listed[0].client_id().as_u128(), CLIENT);
}

#[test]
fn restore_reads_a_stored_form_back() {
    let request = sample(FIRST, Some(Coins(9)));
    let stored = request.stored_form(Some(s("9")));
    assert_eq!(stored.row(), &parent(FIRST_TEXT, Some("9"), CLIENT_TEXT));
    assert_eq!(stored.labels().len(), 2);
    assert_eq!(stored.tags().len(), 1);
    let read = Request::restore(&stored, Some(Coins(9))).unwrap();
    assert_eq!(read.get_id(), request.get_id());
    assert_eq!(read.metadata(), request.metadata());
    assert_eq!(read.reward(), Some(&Coins(9)));
    assert_eq!(Request::<Coins>::restore(&stored, None).err(), Some(BoardError::Serialization));
    let bare = request.stored_form(None);
    assert_eq!(Request::restore(&bare, Some(Coins(9))).unwrap().reward(), None);
}

#[test]
fn errors_have_messages() {
    assert_eq!(BoardError::Conflict.message(), "the identifier is already on the board");
    assert_eq!(BoardError::Serialization.message(), "a reward cannot be put into text or read from it");
    assert_eq!(BoardError::IdentityFormat.message(), "a stored identifier cannot be read");
}

#[test]
fn insert_writes_a_stored_form_or_nothing() {
    let mut board = Board::new();
    let request = sample::<Coins>(FIRST, None);
    assert_eq!(board.insert(request.stored_form(Some(s("4")))), Ok(()));
    assert_eq!(board.len(), 1);
    assert_eq!(board.labels().len(), 2);
    assert_eq!(board.tags().len(), 1);
    let before = format!("{:?}", board);
    assert_eq!(board.insert(request.stored_form(None)), Err(BoardError::Conflict));
    assert_eq!(format!("{:?}", board), before);
    assert_eq!(board.stored(0), request.stored_form(Some(s("4"))));
}

#[test]
fn remove_deletes_by_text() {
    let mut board = Board::new();
    publish(&mut board, &sample::<K>(FIRST, None)).unwrap();
    publish(&mut board, &sample::<K>(SECOND, None)).unwrap();
    board.remove(&s("no such identifier"));
    assert_eq!(board.len(), 2);
    board.remove(&s(SECOND_TEXT));
    assert_eq!(board.len(), 1);
    assert_eq!(board.requests()[0].id, FIRST_TEXT);
    assert_eq!(board.labels().len(), 2);
    assert_eq!(board.tags().len(), 1);
    board.remove(&s(FIRST_TEXT));
    assert_eq!(board, Board::new());
}
