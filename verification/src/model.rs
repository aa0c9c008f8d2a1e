//! The board as the contracts see it: three sets of records, and what
//! writing, deleting and reading a request does to them.

use vstd::prelude::*;
use crate::identity::{canonical_text, uuid_parsed};
use crate::metadata::Text;
use crate::record::{
    distinct_labels, distinct_requests, distinct_tag_rows, LabelRowView, RequestRowView,
    StoredView, TagRowView,
};
use crate::selection::{lemma_filter_all, lemma_filter_none, lemma_filter_places};

verus! {

/// The label records of one identity.
pub open spec fn label_of(id: Text) -> spec_fn(LabelRowView) -> bool {
    |row: LabelRowView| row.request_id == id
}

/// The tag records of one identity.
pub open spec fn tag_of(id: Text) -> spec_fn(TagRowView) -> bool {
    |row: TagRowView| row.request_id == id
}

/// The parent records of every other identity.
pub open spec fn request_not(id: Text) -> spec_fn(RequestRowView) -> bool {
    |row: RequestRowView| row.id != id
}

/// The label records of every other identity.
pub open spec fn label_not(id: Text) -> spec_fn(LabelRowView) -> bool {
    |row: LabelRowView| row.request_id != id
}

/// The tag records of every other identity.
pub open spec fn tag_not(id: Text) -> spec_fn(TagRowView) -> bool {
    |row: TagRowView| row.request_id != id
}

/// Whether both identities of a parent record can be read.
pub open spec fn readable(row: RequestRowView) -> bool {
    uuid_parsed(row.client_id) is Some && uuid_parsed(row.id) is Some
}

/// The records of the open requests, each set in the order in which the
/// board hands it out.
pub struct BoardView {
    pub requests: Seq<RequestRowView>,
    pub labels: Seq<LabelRowView>,
    pub tags: Seq<TagRowView>,
}

impl BoardView {
    /// The board without any record.
    pub open spec fn empty() -> BoardView {
        BoardView { requests: Seq::empty(), labels: Seq::empty(), tags: Seq::empty() }
    }

    /// The keys of each set of records are unique.
    pub open spec fn wf(self) -> bool {
        &&& distinct_requests(self.requests)
        &&& distinct_labels(self.labels)
        &&& distinct_tag_rows(self.tags)
    }

    /// Some record is filed under the identity.
    pub open spec fn holds(self, id: Text) -> bool {
        ||| exists|i: int| 0 <= i < self.requests.len() && (#[trigger] self.requests[i]).id == id
        ||| exists|i: int|
            0 <= i < self.labels.len() && (#[trigger] self.labels[i]).request_id == id
        ||| exists|i: int| 0 <= i < self.tags.len() && (#[trigger] self.tags[i]).request_id == id
    }

    /// The request with the identity is open: its parent record is there.
    pub open spec fn is_open(self, id: Text) -> bool {
        exists|i: int| 0 <= i < self.requests.len() && (#[trigger] self.requests[i]).id == id
    }

    /// Every parent record whose identity can be read is filed under the
    /// canonical text of that identity. This holds of a board that was
    /// written through `publish` alone.
    pub open spec fn canonical(self) -> bool {
        forall|i: int|
            0 <= i < self.requests.len() ==> (uuid_parsed((#[trigger] self.requests[i]).id)
                matches Some(value) ==> self.requests[i].id == canonical_text(value))
    }

    /// The board after all records of a request have been written.
    pub open spec fn with(self, stored: StoredView) -> BoardView {
        BoardView {
            requests: self.requests.push(stored.row),
            labels: self.labels + stored.labels,
            tags: self.tags + stored.tags,
        }
    }

    /// The board after all records of an identity have been deleted.
    pub open spec fn without(self, id: Text) -> BoardView {
        BoardView {
            requests: self.requests.filter(request_not(id)),
            labels: self.labels.filter(label_not(id)),
            tags: self.tags.filter(tag_not(id)),
        }
    }

    /// The parent record at the given place with the records of its labels
    /// and tags.
    pub open spec fn stored(self, i: int) -> StoredView {
        StoredView {
            row: self.requests[i],
            labels: self.labels.filter(label_of(self.requests[i].id)),
            tags: self.tags.filter(tag_of(self.requests[i].id)),
        }
    }
}

/// The empty board is well-formed and canonical, and holds no identity.
pub proof fn lemma_empty(id: Text)
    ensures
        BoardView::empty().wf(),
        BoardView::empty().canonical(),
        !BoardView::empty().holds(id),
        !BoardView::empty().is_open(id),
{
}

/// Writing a request under an identity that the board does not hold keeps
/// the keys unique.
pub proof fn lemma_with_wf(board: BoardView, stored: StoredView)
    requires
        board.wf(),
        stored.wf(),
        !board.holds(stored.row.id),
    ensures
        board.with(stored).wf(),
{
    let after = board.with(stored);
    assert forall|i: int, j: int| 0 <= i < j < after.requests.len() implies (
    #[trigger] after.requests[i]).id != (#[trigger] after.requests[j]).id by {
        if j < board.requests.len() {
            assert(board.requests[i].id != board.requests[j].id);
        } else {
            assert(board.requests[i].id != stored.row.id);
        }
    }
    assert forall|i: int, j: int| 0 <= i < j < after.labels.len() implies !((
    #[trigger] after.labels[i]).request_id == (#[trigger] after.labels[j]).request_id
        && after.labels[i].key == after.labels[j].key) by {
        let n = board.labels.len();
        if j < n {
            assert(!(board.labels[i].request_id == board.labels[j].request_id
                && board.labels[i].key == board.labels[j].key));
        } else if i < n {
            assert(board.labels[i].request_id != stored.row.id);
            assert(stored.labels[j - n].request_id == stored.row.id);
        } else {
            assert(!(stored.labels[i - n].request_id == stored.labels[j - n].request_id
                && stored.labels[i - n].key == stored.labels[j - n].key));
        }
    }
    assert forall|i: int, j: int| 0 <= i < j < after.tags.len() implies !((
    #[trigger] after.tags[i]).request_id == (#[trigger] after.tags[j]).request_id
        && after.tags[i].tag == after.tags[j].tag) by {
        let n = board.tags.len();
        if j < n {
            assert(!(board.tags[i].request_id == board.tags[j].request_id && board.tags[i].tag
                == board.tags[j].tag));
        } else if i < n {
            assert(board.tags[i].request_id != stored.row.id);
            assert(stored.tags[j - n].request_id == stored.row.id);
        } else {
            assert(!(stored.tags[i - n].request_id == stored.tags[j - n].request_id
                && stored.tags[i - n].tag == stored.tags[j - n].tag));
        }
    }
}

/// Once a request is written, the board holds its identity and the request
/// is open.
pub proof fn lemma_with_holds(board: BoardView, stored: StoredView)
    ensures
        board.with(stored).is_open(stored.row.id),
        board.with(stored).holds(stored.row.id),
{
    let after = board.with(stored);
    assert(after.requests[board.requests.len() as int].id == stored.row.id);
}

/// Deleting keeps the keys unique.
pub proof fn lemma_without_wf(board: BoardView, id: Text)
    requires
        board.wf(),
    ensures
        board.without(id).wf(),
{
    let after = board.without(id);
    let at = lemma_filter_places(board.requests, request_not(id));
    assert forall|i: int, j: int| 0 <= i < j < after.requests.len() implies (
    #[trigger] after.requests[i]).id != (#[trigger] after.requests[j]).id by {
        assert(at[i] < at[j]);
        assert(board.requests[at[i]].id != board.requests[at[j]].id);
    }
    let at = lemma_filter_places(board.labels, label_not(id));
    assert forall|i: int, j: int| 0 <= i < j < after.labels.len() implies !((
    #[trigger] after.labels[i]).request_id == (#[trigger] after.labels[j]).request_id
        && after.labels[i].key == after.labels[j].key) by {
        assert(at[i] < at[j]);
        assert(!(board.labels[at[i]].request_id == board.labels[at[j]].request_id
            && board.labels[at[i]].key == board.labels[at[j]].key));
    }
    let at = lemma_filter_places(board.tags, tag_not(id));
    assert forall|i: int, j: int| 0 <= i < j < after.tags.len() implies !((
    #[trigger] after.tags[i]).request_id == (#[trigger] after.tags[j]).request_id
        && after.tags[i].tag == after.tags[j].tag) by {
        assert(at[i] < at[j]);
        assert(!(board.tags[at[i]].request_id == board.tags[at[j]].request_id
            && board.tags[at[i]].tag == board.tags[at[j]].tag));
    }
}

/// After deleting an identity the board holds no record of it: neither the
/// parent record nor a label or tag record.
pub proof fn lemma_without_removes(board: BoardView, id: Text)
    ensures
        !board.without(id).holds(id),
        !board.without(id).is_open(id),
{
    let after = board.without(id);
    let at = lemma_filter_places(board.requests, request_not(id));
    assert forall|i: int| 0 <= i < after.requests.len() implies (#[trigger] after.requests[i]).id
        != id by {
        assert(request_not(id)(board.requests[at[i]]));
    }
    let at = lemma_filter_places(board.labels, label_not(id));
    assert forall|i: int| 0 <= i < after.labels.len() implies (
    #[trigger] after.labels[i]).request_id != id by {
        assert(label_not(id)(board.labels[at[i]]));
    }
    let at = lemma_filter_places(board.tags, tag_not(id));
    assert forall|i: int| 0 <= i < after.tags.len() implies (#[trigger] after.tags[i]).request_id
        != id by {
        assert(tag_not(id)(board.tags[at[i]]));
    }
}

/// Deleting an identity that the board does not hold changes nothing.
pub proof fn lemma_without_absent(board: BoardView, id: Text)
    requires
        !board.holds(id),
    ensures
        board.without(id) == board,
{
    assert forall|i: int| 0 <= i < board.requests.len() implies request_not(id)(
        #[trigger] board.requests[i],
    ) by {}
    lemma_filter_all(board.requests, request_not(id));
    assert forall|i: int| 0 <= i < board.labels.len() implies label_not(id)(
        #[trigger] board.labels[i],
    ) by {}
    lemma_filter_all(board.labels, label_not(id));
    assert forall|i: int| 0 <= i < board.tags.len() implies tag_not(id)(
        #[trigger] board.tags[i],
    ) by {}
    lemma_filter_all(board.tags, tag_not(id));
}

/// Deleting a request that was written under an identity which the board
/// did not hold gives the board as it was before.
pub proof fn lemma_with_then_without(board: BoardView, stored: StoredView)
    requires
        stored.wf(),
        !board.holds(stored.row.id),
    ensures
        board.with(stored).without(stored.row.id) == board,
{
    let id = stored.row.id;
    lemma_without_absent(board, id);
    board.requests.lemma_filter_push(stored.row, request_not(id));
    Seq::filter_distributes_over_add(board.labels, stored.labels, label_not(id));
    assert forall|i: int| 0 <= i < stored.labels.len() implies !label_not(id)(
        #[trigger] stored.labels[i],
    ) by {}
    lemma_filter_none(stored.labels, label_not(id));
    Seq::filter_distributes_over_add(board.tags, stored.tags, tag_not(id));
    assert forall|i: int| 0 <= i < stored.tags.len() implies !tag_not(id)(
        #[trigger] stored.tags[i],
    ) by {}
    lemma_filter_none(stored.tags, tag_not(id));
    assert(board.labels + Seq::<LabelRowView>::empty() =~= board.labels);
    assert(board.tags + Seq::<TagRowView>::empty() =~= board.tags);
}

/// A request that was written under an identity which the board did not
/// hold is read back as it was written: the parent record, and exactly its
/// label and tag records.
pub proof fn lemma_with_stored(board: BoardView, stored: StoredView)
    requires
        stored.wf(),
        !board.holds(stored.row.id),
    ensures
        board.with(stored).stored(board.requests.len() as int) == stored,
{
    let id = stored.row.id;
    Seq::filter_distributes_over_add(board.labels, stored.labels, label_of(id));
    assert forall|i: int| 0 <= i < board.labels.len() implies !label_of(id)(
        #[trigger] board.labels[i],
    ) by {}
    lemma_filter_none(board.labels, label_of(id));
    assert forall|i: int| 0 <= i < stored.labels.len() implies label_of(id)(
        #[trigger] stored.labels[i],
    ) by {}
    lemma_filter_all(stored.labels, label_of(id));
    Seq::filter_distributes_over_add(board.tags, stored.tags, tag_of(id));
    assert forall|i: int| 0 <= i < board.tags.len() implies !tag_of(id)(
        #[trigger] board.tags[i],
    ) by {}
    lemma_filter_none(board.tags, tag_of(id));
    assert forall|i: int| 0 <= i < stored.tags.len() implies tag_of(id)(
        #[trigger] stored.tags[i],
    ) by {}
    lemma_filter_all(stored.tags, tag_of(id));
    assert(Seq::<LabelRowView>::empty() + stored.labels =~= stored.labels);
    assert(Seq::<TagRowView>::empty() + stored.tags =~= stored.tags);
}

/// Writing a request leaves every request that was open as it was.
pub proof fn lemma_with_keeps_stored(board: BoardView, stored: StoredView, i: int)
    requires
        stored.wf(),
        !board.holds(stored.row.id),
        0 <= i < board.requests.len(),
    ensures
        board.with(stored).stored(i) == board.stored(i),
{
    let id = board.requests[i].id;
    assert(id != stored.row.id);
    Seq::filter_distributes_over_add(board.labels, stored.labels, label_of(id));
    assert forall|k: int| 0 <= k < stored.labels.len() implies !label_of(id)(
        #[trigger] stored.labels[k],
    ) by {}
    lemma_filter_none(stored.labels, label_of(id));
    Seq::filter_distributes_over_add(board.tags, stored.tags, tag_of(id));
    assert forall|k: int| 0 <= k < stored.tags.len() implies !tag_of(id)(
        #[trigger] stored.tags[k],
    ) by {}
    lemma_filter_none(stored.tags, tag_of(id));
    assert(board.labels.filter(label_of(id)) + Seq::<LabelRowView>::empty()
        =~= board.labels.filter(label_of(id)));
    assert(board.tags.filter(tag_of(id)) + Seq::<TagRowView>::empty() =~= board.tags.filter(
        tag_of(id),
    ));
}

/// Writing a request under the canonical text of its identity keeps the
/// board canonical.
pub proof fn lemma_with_canonical(board: BoardView, stored: StoredView, value: u128)
    requires
        board.canonical(),
        stored.row.id == canonical_text(value),
        uuid_parsed(canonical_text(value)) == Some(value),
    ensures
        board.with(stored).canonical(),
{
    let after = board.with(stored);
    assert forall|i: int| 0 <= i < after.requests.len() implies (uuid_parsed(
        (#[trigger] after.requests[i]).id,
    ) matches Some(v) ==> after.requests[i].id == canonical_text(v)) by {
        if i < board.requests.len() {
            assert(after.requests[i] == board.requests[i]);
        }
    }
}

/// Deleting keeps the board canonical.
pub proof fn lemma_without_canonical(board: BoardView, id: Text)
    requires
        board.canonical(),
    ensures
        board.without(id).canonical(),
{
    let after = board.without(id);
    let at = lemma_filter_places(board.requests, request_not(id));
    assert forall|i: int| 0 <= i < after.requests.len() implies (uuid_parsed(
        (#[trigger] after.requests[i]).id,
    ) matches Some(v) ==> after.requests[i].id == canonical_text(v)) by {
        assert(after.requests[i] == board.requests[at[i]]);
    }
}

/// On a well-formed canonical board no two parent records that can be read
/// have the same identity.
pub proof fn lemma_listed_once(board: BoardView, i: int, j: int)
    requires
        board.wf(),
        board.canonical(),
        0 <= i < j < board.requests.len(),
        readable(board.requests[i]),
        readable(board.requests[j]),
    ensures
        uuid_parsed(board.requests[i].id) != uuid_parsed(board.requests[j].id),
{
    if uuid_parsed(board.requests[i].id) == uuid_parsed(board.requests[j].id) {
        let value = uuid_parsed(board.requests[i].id)->0;
        assert(board.requests[i].id == canonical_text(value));
        assert(board.requests[j].id == canonical_text(value));
    }
}

/// What is read for an open request is a well-formed stored request.
pub proof fn lemma_stored_wf(board: BoardView, i: int)
    requires
        board.wf(),
        0 <= i < board.requests.len(),
    ensures
        board.stored(i).wf(),
{
    let id = board.requests[i].id;
    let stored = board.stored(i);
    let at = lemma_filter_places(board.labels, label_of(id));
    assert forall|k: int| 0 <= k < stored.labels.len() implies (
    #[trigger] stored.labels[k]).request_id == id by {
        assert(label_of(id)(board.labels[at[k]]));
    }
    assert forall|k: int, l: int| 0 <= k < l < stored.labels.len() implies !((
    #[trigger] stored.labels[k]).request_id == (#[trigger] stored.labels[l]).request_id
        && stored.labels[k].key == stored.labels[l].key) by {
        assert(at[k] < at[l]);
        assert(!(board.labels[at[k]].request_id == board.labels[at[l]].request_id
            && board.labels[at[k]].key == board.labels[at[l]].key));
    }
    let at = lemma_filter_places(board.tags, tag_of(id));
    assert forall|k: int| 0 <= k < stored.tags.len() implies (
    #[trigger] stored.tags[k]).request_id == id by {
        assert(tag_of(id)(board.tags[at[k]]));
    }
    assert forall|k: int, l: int| 0 <= k < l < stored.tags.len() implies !((
    #[trigger] stored.tags[k]).request_id == (#[trigger] stored.tags[l]).request_id
        && stored.tags[k].tag == stored.tags[l].tag) by {
        assert(at[k] < at[l]);
        assert(!(board.tags[at[k]].request_id == board.tags[at[l]].request_id
            && board.tags[at[k]].tag == board.tags[at[l]].tag));
    }
}

} // verus!
