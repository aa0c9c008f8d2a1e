//! What holds of the board and the stages of a request together. Each
//! statement is over the models that the contracts of `publish`,
//! `delist_request`, `get_all_requests`, `claim` and `abandon` speak of: a
//! successful `publish` or `abandon` takes the board to
//! `board.with(request.stored(text))`, `delist_request` and `claim` take it
//! to `board.without(id)`, and `get_all_requests` reads `board.stored(i)`
//! through `restored`.

use vstd::prelude::*;
use crate::board::BoardError;
use crate::identity::{canonical_text, uuid_parsed, Identifier};
use crate::metadata::Text;
use crate::model::{
    lemma_with_canonical, lemma_with_holds, lemma_with_keeps_stored, lemma_with_stored,
    lemma_with_then_without, lemma_with_wf, lemma_without_absent, lemma_without_canonical,
    lemma_without_removes, lemma_without_wf, BoardView,
};
use crate::request::{lemma_stored_restores, restored, Request, RequestView};
use crate::reward::Rewardable;

verus! {

/// Round trip: after a request is published, it is listed last, and what is
/// listed has the identity, title, description, metadata and client of the
/// request. Its reward is what the decoder makes of the stored text, and
/// there is none where the request had none. The requests that were open
/// before are listed as before.
pub proof fn lemma_publish_then_list<T: Rewardable>(
    board: BoardView,
    request: Request<T>,
    text: Option<Text>,
    decoded: Option<T>,
)
    requires
        board.wf(),
        request.wf(),
        !board.holds(canonical_text(request@.id)),
        text is Some == request@.reward is Some,
        text is Some ==> decoded is Some,
    ensures
        ({
            let after = board.with(request.stored(text));
            let last = board.requests.len() as int;
            &&& after.wf()
            &&& after.requests.len() == last + 1
            &&& after.stored(last) == request.stored(text)
            &&& restored(after.stored(last), decoded) == Ok::<RequestView<T>, BoardError>(
                RequestView {
                    id: request@.id,
                    title: request@.title,
                    description: request@.description,
                    metadata: request@.metadata,
                    client_id: request@.client_id,
                    reward: if request@.reward is Some {
                        decoded
                    } else {
                        None
                    },
                },
            )
            &&& forall|i: int| 0 <= i < last ==> #[trigger] after.stored(i) == board.stored(i)
        }),
{
    let stored = request.stored(text);
    lemma_stored_restores(request, text, decoded);
    lemma_with_wf(board, stored);
    lemma_with_stored(board, stored);
    assert forall|i: int| 0 <= i < board.requests.len() implies #[trigger] board.with(
        stored,
    ).stored(i) == board.stored(i) by {
        lemma_with_keeps_stored(board, stored, i);
    }
}

/// A request without a reward is listed exactly as it was published.
pub proof fn lemma_publish_then_list_plain<T: Rewardable>(board: BoardView, request: Request<T>)
    requires
        board.wf(),
        request.wf(),
        !board.holds(canonical_text(request@.id)),
        request@.reward is None,
    ensures
        forall|decoded: Option<T>| #[trigger]
            restored(
                board.with(request.stored(None)).stored(board.requests.len() as int),
                decoded,
            ) == Ok::<RequestView<T>, BoardError>(request@),
{
    assert forall|decoded: Option<T>| #[trigger]
        restored(board.with(request.stored(None)).stored(board.requests.len() as int), decoded)
            == Ok::<RequestView<T>, BoardError>(request@) by {
        lemma_stored_restores(request, None, decoded);
        lemma_with_stored(board, request.stored(None));
    }
}

/// Lifecycle exclusivity: after a claim the board holds no record of the
/// request, so that it is not open; after the abandon that follows, the
/// request is open again, with the records that stood for it before: its
/// identity and its metadata are unchanged.
pub proof fn lemma_claim_then_abandon<T: Rewardable>(
    board: BoardView,
    request: Request<T>,
    text: Option<Text>,
    decoded: Option<T>,
)
    requires
        board.wf(),
        request.wf(),
        text is Some == request@.reward is Some,
        text is Some ==> decoded is Some,
    ensures
        ({
            let id = canonical_text(request@.id);
            let claimed = board.without(id);
            let reopened = claimed.with(request.stored(text));
            let last = claimed.requests.len() as int;
            &&& claimed.wf()
            &&& !claimed.holds(id)
            &&& !claimed.is_open(id)
            &&& reopened.wf()
            &&& reopened.is_open(id)
            &&& reopened.stored(last) == request.stored(text)
            &&& restored(reopened.stored(last), decoded) matches Ok(listed) && listed.id
                == request@.id && listed.metadata == request@.metadata && listed.title
                == request@.title && listed.description == request@.description
                && listed.client_id == request@.client_id
        }),
{
    let id = canonical_text(request@.id);
    let claimed = board.without(id);
    lemma_without_wf(board, id);
    lemma_without_removes(board, id);
    lemma_with_holds(claimed, request.stored(text));
    lemma_stored_restores(request, text, decoded);
    lemma_publish_then_list(claimed, request, text, decoded);
}

/// A claim undoes a publication: where a request was published on a board
/// that held no record of it, claiming it gives the board as it was.
pub proof fn lemma_publish_then_claim<T: Rewardable>(
    board: BoardView,
    request: Request<T>,
    text: Option<Text>,
)
    requires
        request.wf(),
        !board.holds(canonical_text(request@.id)),
    ensures
        board.with(request.stored(text)).without(canonical_text(request@.id)) == board,
{
    lemma_stored_restores(request, text, None);
    lemma_with_then_without(board, request.stored(text));
}

/// On a canonical board, no request that is listed after a claim or a
/// delisting has the identity that was taken off.
pub proof fn lemma_delisted_is_not_listed(board: BoardView, id: Identifier)
    requires
        board.canonical(),
        id.wf(),
    ensures
        board.without(id.text()).canonical(),
        forall|i: int|
            0 <= i < board.without(id.text()).requests.len() ==> uuid_parsed(
                (#[trigger] board.without(id.text()).requests[i]).id,
            ) != Some(id@),
{
    let after = board.without(id.text());
    lemma_without_canonical(board, id.text());
    lemma_without_removes(board, id.text());
    assert forall|i: int| 0 <= i < after.requests.len() implies uuid_parsed(
        (#[trigger] after.requests[i]).id,
    ) != Some(id@) by {
        if uuid_parsed(after.requests[i].id) == Some(id@) {
            assert(after.requests[i].id == canonical_text(id@));
        }
    }
}

/// Publishing keeps a board canonical.
pub proof fn lemma_publish_keeps_canonical<T: Rewardable>(
    board: BoardView,
    request: Request<T>,
    text: Option<Text>,
)
    requires
        board.canonical(),
        request.wf(),
    ensures
        board.with(request.stored(text)).canonical(),
{
    lemma_stored_restores(request, text, None);
    lemma_with_canonical(board, request.stored(text), request@.id);
}

/// Identities with different values are filed under different texts, so that
/// the records of one request are no conflict for another.
pub proof fn lemma_distinct_identities_have_distinct_texts(a: Identifier, b: Identifier)
    requires
        a.wf(),
        b.wf(),
        a@ != b@,
    ensures
        a.text() != b.text(),
        canonical_text(a@) != canonical_text(b@),
{
}

/// Idempotent delete: deleting an identity of which the board holds no
/// record leaves the board as it is, and deleting twice is deleting once.
pub proof fn lemma_delist_absent(board: BoardView, id: Text)
    ensures
        !board.holds(id) ==> board.without(id) == board,
        board.without(id).without(id) == board.without(id),
{
    if !board.holds(id) {
        lemma_without_absent(board, id);
    }
    lemma_without_removes(board, id);
    lemma_without_absent(board.without(id), id);
}

/// Conflict on a second publication: once a request is published, the board
/// holds its identity, so that `publish` refuses every request with that
/// identity and leaves the board as it is.
pub proof fn lemma_published_identity_is_held<T: Rewardable>(
    board: BoardView,
    first: Request<T>,
    second: Request<T>,
    text: Option<Text>,
)
    requires
        first@.id == second@.id,
    ensures
        board.with(first.stored(text)).holds(canonical_text(second@.id)),
{
    lemma_with_holds(board, first.stored(text));
}

} // verus!
