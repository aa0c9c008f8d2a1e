use guild_core::{
    get_all_requests, AcceptedRequest, Board, BoardError, DraftedRequest, Identifier, Request,
    Rewardable,
};
use std::cell::Cell;
use std::rc::Rc;

/// A payload without content, written as JSON `null`.
#[derive(Debug, PartialEq)]
struct K;

impl Rewardable for K {
    fn encode(&self) -> Option<String> {
        serde_json::to_string(&()).ok()
    }

    fn decode(text: &str) -> Option<Self> {
        serde_json::from_str::<()>(text).ok().map(|_| K)
    }
}

/// A payload that counts how often it is released.
#[derive(Debug)]
struct Bell {
    rung: Rc<Cell<u32>>,
}

impl Rewardable for Bell {
    fn encode(&self) -> Option<String> {
        serde_json::to_string(&self.rung.get()).ok()
    }

    fn decode(text: &str) -> Option<Self> {
        serde_json::from_str::<u32>(text).ok().map(|n| Bell { rung: Rc::new(Cell::new(n)) })
    }

    fn release(self) {
        self.rung.set(self.rung.get() + 1);
    }
}

fn s(text: &str) -> String {
    text.to_string()
}

const CLIENT: u128 = 0x11111111222233334444555555555555;
const MEMBER: u128 = 0x99999999888877776666555555555555;

fn sample_draft() -> DraftedRequest {
    DraftedRequest::new(
        s("Sample Request"),
        s("This is a sample request description."),
        None,
        None,
        Identifier::from_u128(CLIENT),
    )
}

#[test]
fn draft_holds_what_it_was_given() {
    let draft = DraftedRequest::new(
        s("Sample Request"),
        s("This is a sample request description."),
        Some(vec![(s("priority"), s("high"))]),
        Some(vec![s("urgent"), s("urgent")]),
        Identifier::from_u128(CLIENT),
    );
    assert_eq!(draft.title(), "Sample Request");
    assert_eq!(draft.description(), "This is a sample request description.");
    assert_eq!(draft.client_id().as_u128(), CLIENT);
    assert_eq!(draft.metadata().label(&s("priority")), Some(&s("high")));
    assert_eq!(draft.metadata().tags(), &vec![s("urgent")]);
    assert_eq!((draft.get_id().as_u128() >> 76) & 0xf, 4);
}

#[test]
fn drafts_get_identifiers_of_their_own() {
    assert_ne!(sample_draft().get_id(), sample_draft().get_id());
}

#[test]
fn with_id_keeps_the_identifier() {
    let draft = DraftedRequest::with_id(
        Identifier::from_u128(7),
        s("t"),
        s("d"),
        None,
        None,
        Identifier::from_u128(CLIENT),
    );
    assert_eq!(draft.get_id().as_u128(), 7);
    assert!(draft.metadata().labels().is_empty());
    assert!(draft.metadata().tags().is_empty());
}

#[test]
fn advance_keeps_identity_and_fields() {
    let draft = DraftedRequest::new(
        s("Sample Request"),
        s("X"),
        Some(vec![(s("priority"), s("high"))]),
        Some(vec![s("urgent")]),
        Identifier::from_u128(CLIENT),
    );
    let id = draft.get_id().duplicate();
    let request = draft.advance(Some(K));
    assert_eq!(request.get_id(), &id);
    assert_eq!(request.title(), "Sample Request");
    assert_eq!(request.description(), "X");
    assert_eq!(request.client_id().as_u128(), CLIENT);
    assert_eq!(request.metadata().label(&s("priority")), Some(&s("high")));
    assert!(request.metadata().has_tag(&s("urgent")));
    assert_eq!(request.reward(), Some(&K));
}

#[test]
fn sample_request_goes_through_publish_claim_and_abandon() {
    let mut board = Board::new();
    let draft = sample_draft();
    let id = draft.get_id().duplicate();
    let request = draft.publish::<K>(None, &mut board).unwrap();

    let listed = get_all_requests::<K>(&board).unwrap();
    assert_eq!(listed.len(), 1);
    assert_eq!(listed[0].get_id(), &id);
    assert_eq!(listed[0].title(), "Sample Request");
    assert_eq!(listed[0].description(), "This is a sample request description.");
    assert!(listed[0].metadata().labels().is_empty());
    assert!(listed[0].metadata().tags().is_empty());
    assert_eq!(listed[0].client_id().as_u128(), CLIENT);
    assert_eq!(listed[0].reward(), None);

    let accepted = request.claim(Identifier::from_u128(MEMBER), &mut board).unwrap();
    assert_eq!(accepted.member_id().as_u128(), MEMBER);
    assert_eq!(accepted.request().get_id(), &id);
    assert_eq!(get_all_requests::<K>(&board).unwrap().len(), 0);
    assert_eq!(board, Board::new());

    let request = accepted.abandon(&mut board).unwrap();
    assert_eq!(request.get_id(), &id);
    let listed = get_all_requests::<K>(&board).unwrap();
    assert_eq!(listed.len(), 1);
    assert_eq!(listed[0].get_id(), &id);
    assert_eq!(listed[0].title(), "Sample Request");
    assert_eq!(listed[0].description(), "This is a sample request description.");
    assert!(listed[0].metadata().labels().is_empty());
    assert!(listed[0].metadata().tags().is_empty());
    assert_eq!(listed[0].client_id().as_u128(), CLIENT);
    assert_eq!(listed[0].reward(), None);
}

#[test]
fn abandon_puts_the_same_records_back() {
    let mut board = Board::new();
    let other = sample_draft().publish::<Bell>(None, &mut board).unwrap();
    let draft = DraftedRequest::new(
        s("Labelled"),
        s("with metadata"),
        Some(vec![(s("priority"), s("high")), (s("area"), s("garden"))]),
        Some(vec![s("urgent")]),
        Identifier::from_u128(CLIENT),
    );
    let request = draft.publish(Some(Bell { rung: Rc::new(Cell::new(0)) }), &mut board).unwrap();
    let id = request.get_id().duplicate();
    let before = format!("{:?}", board);

    let accepted = request.claim(Identifier::from_u128(MEMBER), &mut board).unwrap();
    let listed = get_all_requests::<Bell>(&board).unwrap();
    assert_eq!(listed.len(), 1);
    assert_eq!(listed[0].get_id(), other.get_id());
    assert!(!board.holds(&id.as_str().to_string()));
    assert!(board.labels().is_empty());
    assert!(board.tags().is_empty());

    let request = accepted.abandon(&mut board).unwrap();
    assert_eq!(format!("{:?}", board), before);
    let listed = get_all_requests::<Bell>(&board).unwrap();
    assert_eq!(listed.len(), 2);
    assert_eq!(listed[1].get_id(), &id);
    assert_eq!(listed[1].metadata(), request.metadata());
    assert_eq!(listed[1].metadata().label(&s("priority")), Some(&s("high")));
    assert!(listed[1].metadata().has_tag(&s("urgent")));
}

#[test]
fn publishing_a_reused_identifier_fails() {
    let mut board = Board::new();
    let first = DraftedRequest::with_id(
        Identifier::from_u128(1),
        s("first"),
        s(""),
        None,
        None,
        Identifier::from_u128(CLIENT),
    );
    let second = DraftedRequest::with_id(
        Identifier::from_u128(1),
        s("second"),
        s(""),
        None,
        None,
        Identifier::from_u128(CLIENT),
    );
    first.publish::<K>(None, &mut board).unwrap();
    assert_eq!(second.publish::<K>(None, &mut board).err(), Some(BoardError::Conflict));
    let listed = get_all_requests::<K>(&board).unwrap();
    assert_eq!(listed.len(), 1);
    assert_eq!(listed[0].title(), "first");
}

#[test]
fn abandon_conflicts_where_the_identifier_was_taken_meanwhile() {
    let mut board = Board::new();
    let request = DraftedRequest::with_id(
        Identifier::from_u128(1),
        s("first"),
        s(""),
        None,
        None,
        Identifier::from_u128(CLIENT),
    )
    .publish::<K>(None, &mut board)
    .unwrap();
    let accepted = request.claim(Identifier::from_u128(MEMBER), &mut board).unwrap();
    DraftedRequest::with_id(
        Identifier::from_u128(1),
        s("second"),
        s(""),
        None,
        None,
        Identifier::from_u128(CLIENT),
    )
    .publish::<K>(None, &mut board)
    .unwrap();
    assert_eq!(accepted.abandon(&mut board).err(), Some(BoardError::Conflict));
    assert_eq!(get_all_requests::<K>(&board).unwrap()[0].title(), "second");
}

#[test]
fn claim_of_a_request_that_is_not_on_the_board_succeeds() {
    let mut board = Board::new();
    let request: Request<K> = sample_draft().advance(None);
    let accepted: AcceptedRequest<K> =
        request.claim(Identifier::from_u128(MEMBER), &mut board).unwrap();
    assert_eq!(accepted.member_id().as_u128(), MEMBER);
    assert_eq!(board, Board::new());
}

#[test]
fn complete_releases_the_reward_once() {
    let mut board = Board::new();
    let rung = Rc::new(Cell::new(0));
    let request =
        sample_draft().publish(Some(Bell { rung: rung.clone() }), &mut board).unwrap();
    let accepted = request.claim(Identifier::from_u128(MEMBER), &mut board).unwrap();
    assert_eq!(rung.get(), 0);
    assert!(accepted.complete());
    assert_eq!(rung.get(), 1);
    assert_eq!(get_all_requests::<Bell>(&board).unwrap().len(), 0);
}

#[test]
fn complete_without_reward_releases_nothing() {
    let mut board = Board::new();
    let request = sample_draft().publish::<Bell>(None, &mut board).unwrap();
    let accepted = request.claim(Identifier::from_u128(MEMBER), &mut board).unwrap();
    assert!(!accepted.complete());
}

#[test]
fn default_release_does_nothing() {
    let mut board = Board::new();
    let request = sample_draft().publish(Some(K), &mut board).unwrap();
    let accepted = request.claim(Identifier::from_u128(MEMBER), &mut board).unwrap();
    assert!(accepted.complete());
    K.release();
}

#[test]
fn abandon_does_not_release_the_reward() {
    let mut board = Board::new();
    let rung = Rc::new(Cell::new(0));
    let request =
        sample_draft().publish(Some(Bell { rung: rung.clone() }), &mut board).unwrap();
    let accepted = request.claim(Identifier::from_u128(MEMBER), &mut board).unwrap();
    let request = accepted.abandon(&mut board).unwrap();
    assert_eq!(rung.get(), 0);
    let accepted = request.claim(Identifier::from_u128(MEMBER), &mut board).unwrap();
    assert!(accepted.complete());
    assert_eq!(rung.get(), 1);
}
