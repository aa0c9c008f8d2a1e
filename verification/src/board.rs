//! The board: the store of the open requests. A request is written and
//! deleted as one unit, the parent record together with the records of its
//! labels and tags.

use vstd::prelude::*;
use crate::identity::{canonical_text, Identifier};
use crate::metadata::Text;
use crate::model::{
    label_not, label_of, lemma_listed_once, lemma_stored_wf, lemma_with_canonical, lemma_with_wf,
    lemma_without_absent, lemma_without_canonical, lemma_without_removes, lemma_without_wf,
    readable, request_not, tag_not, tag_of, BoardView,
};
use crate::record::{
    distinct_labels, distinct_requests, distinct_tag_rows, LabelRow, LabelRowView, RequestRow,
    RequestRowView, StoredRequest, TagRow, TagRowView,
};
use crate::request::{lemma_stored_restores, restored, Request, RequestView};
use crate::reward::Rewardable;

verus! {

/// Why the board refused an operation.
#[derive(Debug, Clone, Copy, PartialEq, Eq, Structural)]
pub enum BoardError {
    /// A record with the same key is already on the board.
    Conflict,
    /// A reward could not be put into text, or a stored text stands for no
    /// reward.
    Serialization,
    /// A stored identity cannot be read.
    IdentityFormat,
}

impl BoardError {
    /// What went wrong, in words.
    pub fn message(&self) -> (text: &'static str)
        ensures
            text@ == match self {
                BoardError::Conflict => "the identifier is already on the board"@,
                BoardError::Serialization => "a reward cannot be put into text or read from it"@,
                BoardError::IdentityFormat => "a stored identifier cannot be read"@,
            },
    {
        match self {
            BoardError::Conflict => "the identifier is already on the board",
            BoardError::Serialization => "a reward cannot be put into text or read from it",
            BoardError::IdentityFormat => "a stored identifier cannot be read",
        }
    }
}

/// Whether no two parent records have the same identity.
fn requests_distinct(rows: &Vec<RequestRow>) -> (distinct: bool)
    ensures
        distinct == distinct_requests(rows.deep_view()),
{
    let ghost view = rows.deep_view();
    let mut j: usize = 0;
    while j < rows.len()
        invariant
            j <= rows.len(),
            view == rows.deep_view(),
            forall|a: int, b: int| 0 <= a < b < j ==> (#[trigger] view[a]).id != (#[trigger] view[b]).id,
        decreases rows.len() - j,
    {
        let mut i: usize = 0;
        while i < j
            invariant
                i <= j < rows.len(),
                view == rows.deep_view(),
                forall|a: int| 0 <= a < i ==> (#[trigger] view[a]).id != view[j as int].id,
            decreases j - i,
        {
            if rows[i].id == rows[j].id {
                assert(view[i as int].id == view[j as int].id);
                return false;
            }
            i += 1;
        }
        j += 1;
    }
    true
}

/// Whether no two label records have the same identity and key.
fn labels_distinct(rows: &Vec<LabelRow>) -> (distinct: bool)
    ensures
        distinct == distinct_labels(rows.deep_view()),
{
    let ghost view = rows.deep_view();
    let mut j: usize = 0;
    while j < rows.len()
        invariant
            j <= rows.len(),
            view == rows.deep_view(),
            forall|a: int, b: int|
                0 <= a < b < j ==> !((#[trigger] view[a]).request_id == (
                #[trigger] view[b]).request_id && view[a].key == view[b].key),
        decreases rows.len() - j,
    {
        let mut i: usize = 0;
        while i < j
            invariant
                i <= j < rows.len(),
                view == rows.deep_view(),
                forall|a: int|
                    0 <= a < i ==> !((#[trigger] view[a]).request_id == view[j as int].request_id
                        && view[a].key == view[j as int].key),
            decreases j - i,
        {
            if rows[i].request_id == rows[j].request_id && rows[i].key == rows[j].key {
                assert(view[i as int].request_id == view[j as int].request_id && view[i as int].key
                    == view[j as int].key);
                return false;
            }
            i += 1;
        }
        j += 1;
    }
    true
}

/// Whether no two tag records have the same identity and tag.
fn tags_distinct(rows: &Vec<TagRow>) -> (distinct: bool)
    ensures
        distinct == distinct_tag_rows(rows.deep_view()),
{
    let ghost view = rows.deep_view();
    let mut j: usize = 0;
    while j < rows.len()
        invariant
            j <= rows.len(),
            view == rows.deep_view(),
            forall|a: int, b: int|
                0 <= a < b < j ==> !((#[trigger] view[a]).request_id == (
                #[trigger] view[b]).request_id && view[a].tag == view[b].tag),
        decreases rows.len() - j,
    {
        let mut i: usize = 0;
        while i < j
            invariant
                i <= j < rows.len(),
                view == rows.deep_view(),
                forall|a: int|
                    0 <= a < i ==> !((#[trigger] view[a]).request_id == view[j as int].request_id
                        && view[a].tag == view[j as int].tag),
            decreases j - i,
        {
            if rows[i].request_id == rows[j].request_id && rows[i].tag == rows[j].tag {
                assert(view[i as int].request_id == view[j as int].request_id && view[i as int].tag
                    == view[j as int].tag);
                return false;
            }
            i += 1;
        }
        j += 1;
    }
    true
}

/// The parent records of every identity but the given one.
fn other_requests(rows: &Vec<RequestRow>, id: &String) -> (kept: Vec<RequestRow>)
    ensures
        kept.deep_view() == rows.deep_view().filter(request_not(id@)),
{
    let ghost view = rows.deep_view();
    let mut kept: Vec<RequestRow> = Vec::new();
    let mut i: usize = 0;
    proof {
        view.take(0).lemma_filter_len(request_not(id@));
        assert(kept.deep_view() =~= view.take(0).filter(request_not(id@)));
    }
    while i < rows.len()
        invariant
            i <= rows.len(),
            view == rows.deep_view(),
            kept.deep_view() == view.take(i as int).filter(request_not(id@)),
        decreases rows.len() - i,
    {
        let ghost before = kept.deep_view();
        proof {
            assert(view.take(i + 1) == view.take(i as int).push(view[i as int]));
            view.take(i as int).lemma_filter_push(view[i as int], request_not(id@));
        }
        if rows[i].id != *id {
            kept.push(rows[i].duplicate());
            assert(kept.deep_view() == before.push(view[i as int]));
        }
        i += 1;
    }
    assert(view.take(rows.len() as int) == view);
    kept
}

/// The label records of the given identity, or those of every other one.
fn select_labels(rows: &Vec<LabelRow>, id: &String, own: bool) -> (kept: Vec<LabelRow>)
    ensures
        kept.deep_view() == rows.deep_view().filter(
            if own {
                label_of(id@)
            } else {
                label_not(id@)
            },
        ),
{
    let ghost view = rows.deep_view();
    let ghost wanted = if own {
        label_of(id@)
    } else {
        label_not(id@)
    };
    let mut kept: Vec<LabelRow> = Vec::new();
    let mut i: usize = 0;
    proof {
        view.take(0).lemma_filter_len(wanted);
        assert(kept.deep_view() =~= view.take(0).filter(wanted));
    }
    while i < rows.len()
        invariant
            i <= rows.len(),
            view == rows.deep_view(),
            wanted == if own {
                label_of(id@)
            } else {
                label_not(id@)
            },
            kept.deep_view() == view.take(i as int).filter(wanted),
        decreases rows.len() - i,
    {
        let ghost before = kept.deep_view();
        proof {
            assert(view.take(i + 1) == view.take(i as int).push(view[i as int]));
            view.take(i as int).lemma_filter_push(view[i as int], wanted);
        }
        if (rows[i].request_id == *id) == own {
            kept.push(rows[i].duplicate());
            assert(kept.deep_view() == before.push(view[i as int]));
        }
        i += 1;
    }
    assert(view.take(rows.len() as int) == view);
    kept
}

/// The tag records of the given identity, or those of every other one.
fn select_tags(rows: &Vec<TagRow>, id: &String, own: bool) -> (kept: Vec<TagRow>)
    ensures
        kept.deep_view() == rows.deep_view().filter(
            if own {
                tag_of(id@)
            } else {
                tag_not(id@)
            },
        ),
{
    let ghost view = rows.deep_view();
    let ghost wanted = if own {
        tag_of(id@)
    } else {
        tag_not(id@)
    };
    let mut kept: Vec<TagRow> = Vec::new();
    let mut i: usize = 0;
    proof {
        view.take(0).lemma_filter_len(wanted);
        assert(kept.deep_view() =~= view.take(0).filter(wanted));
    }
    while i < rows.len()
        invariant
            i <= rows.len(),
            view == rows.deep_view(),
            wanted == if own {
                tag_of(id@)
            } else {
                tag_not(id@)
            },
            kept.deep_view() == view.take(i as int).filter(wanted),
        decreases rows.len() - i,
    {
        let ghost before = kept.deep_view();
        proof {
            assert(view.take(i + 1) == view.take(i as int).push(view[i as int]));
            view.take(i as int).lemma_filter_push(view[i as int], wanted);
        }
        if (rows[i].request_id == *id) == own {
            kept.push(rows[i].duplicate());
            assert(kept.deep_view() == before.push(view[i as int]));
        }
        i += 1;
    }
    assert(view.take(rows.len() as int) == view);
    kept
}

/// The store of the open requests.
#[derive(Debug, PartialEq, Eq)]
pub struct Board {
    requests: Vec<RequestRow>,
    labels: Vec<LabelRow>,
    tags: Vec<TagRow>,
}

impl View for Board {
    type V = BoardView;

    closed spec fn view(&self) -> BoardView {
        BoardView {
            requests: self.requests.deep_view(),
            labels: self.labels.deep_view(),
            tags: self.tags.deep_view(),
        }
    }
}

impl Board {
    /// The keys of each set of records are unique.
    pub open spec fn wf(&self) -> bool {
        self@.wf()
    }

    /// A board without records.
    pub fn new() -> (board: Board)
        ensures
            board@ == BoardView::empty(),
            board.wf(),
    {
        let board = Board { requests: Vec::new(), labels: Vec::new(), tags: Vec::new() };
        assert(board@.requests =~= Seq::<RequestRowView>::empty());
        assert(board@.labels =~= Seq::<LabelRowView>::empty());
        assert(board@.tags =~= Seq::<TagRowView>::empty());
        board
    }

    /// A board with the given records, as they were read from a store. It
    /// is refused as a conflict where a key occurs twice.
    pub fn load(requests: Vec<RequestRow>, labels: Vec<LabelRow>, tags: Vec<TagRow>) -> (loaded:
        Result<Board, BoardError>)
        ensures
            match loaded {
                Ok(board) => board.wf() && board@ == (BoardView {
                    requests: requests.deep_view(),
                    labels: labels.deep_view(),
                    tags: tags.deep_view(),
                }),
                Err(error) => error == BoardError::Conflict && !(BoardView {
                    requests: requests.deep_view(),
                    labels: labels.deep_view(),
                    tags: tags.deep_view(),
                }).wf(),
            },
    {
        if requests_distinct(&requests) && labels_distinct(&labels) && tags_distinct(&tags) {
            Ok(Board { requests, labels, tags })
        } else {
            Err(BoardError::Conflict)
        }
    }

    /// The parent records.
    pub fn requests(&self) -> (rows: &Vec<RequestRow>)
        ensures
            rows.deep_view() == self@.requests,
    {
        &self.requests
    }

    /// The label records.
    pub fn labels(&self) -> (rows: &Vec<LabelRow>)
        ensures
            rows.deep_view() == self@.labels,
    {
        &self.labels
    }

    /// The tag records.
    pub fn tags(&self) -> (rows: &Vec<TagRow>)
        ensures
            rows.deep_view() == self@.tags,
    {
        &self.tags
    }

    /// The number of open requests.
    pub fn len(&self) -> (count: usize)
        ensures
            count == self@.requests.len(),
    {
        self.requests.len()
    }

    /// Whether some record is filed under the identity.
    pub fn holds(&self, id: &String) -> (held: bool)
        ensures
            held == self@.holds(id@),
    {
        let mut i: usize = 0;
        while i < self.requests.len()
            invariant
                i <= self.requests.len(),
                forall|k: int| 0 <= k < i ==> (#[trigger] self@.requests[k]).id != id@,
            decreases self.requests.len() - i,
        {
            if self.requests[i].id == *id {
                assert(self@.requests[i as int].id == id@);
                return true;
            }
            i += 1;
        }
        let mut i: usize = 0;
        while i < self.labels.len()
            invariant
                i <= self.labels.len(),
                forall|k: int| 0 <= k < i ==> (#[trigger] self@.labels[k]).request_id != id@,
            decreases self.labels.len() - i,
        {
            if self.labels[i].request_id == *id {
                assert(self@.labels[i as int].request_id == id@);
                return true;
            }
            i += 1;
        }
        let mut i: usize = 0;
        while i < self.tags.len()
            invariant
                i <= self.tags.len(),
                forall|k: int| 0 <= k < i ==> (#[trigger] self@.tags[k]).request_id != id@,
            decreases self.tags.len() - i,
        {
            if self.tags[i].request_id == *id {
                assert(self@.tags[i as int].request_id == id@);
                return true;
            }
            i += 1;
        }
        false
    }

    /// Writes all records of a request, or none: where the board holds a
    /// record under the request's identity, it refuses the request as a
    /// conflict and stays as it is.
    pub fn insert(&mut self, stored: StoredRequest) -> (done: Result<(), BoardError>)
        requires
            old(self).wf(),
            stored@.wf(),
        ensures
            final(self).wf(),
            match done {
                Ok(()) => !old(self)@.holds(stored@.row.id) && final(self)@ == old(self)@.with(
                    stored@,
                ),
                Err(error) => error == BoardError::Conflict && old(self)@.holds(stored@.row.id)
                    && final(self)@ == old(self)@,
            },
    {
        if self.holds(&stored.row().id) {
            return Err(BoardError::Conflict);
        }
        proof {
            lemma_with_wf(self@, stored@);
        }
        let ghost before = self@;
        let (row, mut labels, mut tags) = stored.into_parts();
        self.requests.push(row);
        self.labels.append(&mut labels);
        self.tags.append(&mut tags);
        assert(self@.requests =~= before.requests.push(stored@.row));
        assert(self@.labels =~= before.labels + stored@.labels);
        assert(self@.tags =~= before.tags + stored@.tags);
        Ok(())
    }

    /// Deletes every record that is filed under the identity.
    pub fn remove(&mut self, id: &String)
        ensures
            final(self)@ == old(self)@.without(id@),
            old(self).wf() ==> final(self).wf(),
    {
        proof {
            if self.wf() {
                lemma_without_wf(self@, id@);
            }
        }
        let requests = other_requests(&self.requests, id);
        let labels = select_labels(&self.labels, id, false);
        let tags = select_tags(&self.tags, id, false);
        self.requests = requests;
        self.labels = labels;
        self.tags = tags;
    }

    /// The open request at the given place, as it is stored.
    pub fn stored(&self, i: usize) -> (stored: StoredRequest)
        requires
            i < self@.requests.len(),
        ensures
            stored@ == self@.stored(i as int),
            self.wf() ==> stored@.wf(),
    {
        proof {
            if self.wf() {
                lemma_stored_wf(self@, i as int);
            }
        }
        let row = self.requests[i].duplicate();
        let labels = select_labels(&self.labels, &row.id, true);
        let tags = select_tags(&self.tags, &row.id, true);
        StoredRequest::from_parts(row, labels, tags)
    }
}


/// Publishes a request whose reward has the given text: all its records are
/// written, or none. It is a conflict where the board holds a record under
/// the request's identity.
pub fn publish_encoded<T: Rewardable>(
    board: &mut Board,
    request: &Request<T>,
    reward: Option<String>,
) -> (done: Result<(), BoardError>)
    requires
        old(board).wf(),
        request.wf(),
    ensures
        final(board).wf(),
        old(board)@.canonical() ==> final(board)@.canonical(),
        match done {
            Ok(()) => !old(board)@.holds(canonical_text(request@.id)) && final(board)@ == old(
                board,
            )@.with(request.stored(reward.deep_view())),
            Err(error) => error == BoardError::Conflict && old(board)@.holds(
                canonical_text(request@.id),
            ) && final(board)@ == old(board)@,
        },
{
    proof {
        lemma_stored_restores(*request, reward.deep_view(), None);
        if board@.canonical() {
            lemma_with_canonical(board@, request.stored(reward.deep_view()), request@.id);
        }
    }
    board.insert(request.stored_form(reward))
}

/// Publishes a request: its reward is put into text, and all its records
/// are written, or none. Where the reward has no text, nothing is written.
/// It is a conflict where the board holds a record under the request's
/// identity.
pub fn publish<T: Rewardable>(board: &mut Board, request: &Request<T>) -> (done: Result<
    (),
    BoardError,
>)
    requires
        old(board).wf(),
        request.wf(),
    ensures
        final(board).wf(),
        old(board)@.canonical() ==> final(board)@.canonical(),
        match done {
            Ok(()) => {
                &&& !old(board)@.holds(canonical_text(request@.id))
                &&& exists|text: Option<Text>|
                    text is Some == request@.reward is Some && final(board)@ == old(board)@.with(
                        #[trigger] request.stored(text),
                    )
            },
            Err(error) => {
                &&& final(board)@ == old(board)@
                &&& error == BoardError::Conflict ==> old(board)@.holds(
                    canonical_text(request@.id),
                )
                &&& error == BoardError::Serialization ==> request@.reward is Some
                &&& error != BoardError::IdentityFormat
            },
        },
        request@.reward is None ==> (done is Ok <==> !old(board)@.holds(
            canonical_text(request@.id),
        )),
{
    let encoded = match request.reward() {
        Some(payload) => match payload.encode() {
            Some(text) => Some(text),
            None => {
                return Err(BoardError::Serialization);
            },
        },
        None => None,
    };
    let ghost text: Option<Text> = encoded.deep_view();
    let done = publish_encoded(board, request, encoded);
    proof {
        if done is Ok {
            assert(board@ == old(board)@.with(request.stored(text)));
        }
    }
    done
}

/// Deletes every record of a request. It does not fail: where the board
/// holds no record of the identity, it stays as it is.
pub fn delist_request(board: &mut Board, request_id: &Identifier) -> (done: Result<
    (),
    BoardError,
>)
    ensures
        done is Ok,
        final(board)@ == old(board)@.without(request_id.text()),
        old(board).wf() ==> final(board).wf(),
        old(board)@.canonical() ==> final(board)@.canonical(),
        !final(board)@.holds(request_id.text()),
        !old(board)@.holds(request_id.text()) ==> final(board)@ == old(board)@,
{
    proof {
        lemma_without_removes(board@, request_id.text());
        if !board@.holds(request_id.text()) {
            lemma_without_absent(board@, request_id.text());
        }
        if board@.canonical() {
            lemma_without_canonical(board@, request_id.text());
        }
    }
    let text = request_id.as_str().to_owned();
    board.remove(&text);
    Ok(())
}

/// Reads every open request, each once, in the order of the parent records.
/// The reward text of each is handed to the payload's decoder. The first
/// record that cannot be read fails the whole call, with the error that
/// reading it gives.
pub fn get_all_requests<T: Rewardable>(board: &Board) -> (listed: Result<
    Vec<Request<T>>,
    BoardError,
>)
    ensures
        match listed {
            Ok(requests) => {
                &&& requests.len() == board@.requests.len()
                &&& forall|i: int|
                    0 <= i < requests.len() ==> {
                        &&& restored(board@.stored(i), (#[trigger] requests[i])@.reward) == Ok::<
                            RequestView<T>,
                            BoardError,
                        >(requests[i]@)
                        &&& requests[i].wf()
                    }
            },
            Err(error) => {
                &&& exists|i: int, decoded: Option<T>|
                    {
                        &&& 0 <= i < board@.requests.len()
                        &&& forall|k: int| 0 <= k < i ==> readable(#[trigger] board@.requests[k])
                        &&& #[trigger] restored(board@.stored(i), decoded) == Err::<
                            RequestView<T>,
                            BoardError,
                        >(error)
                    }
                &&& error == BoardError::IdentityFormat ==> exists|i: int|
                    0 <= i < board@.requests.len() && !readable(#[trigger] board@.requests[i])
                &&& error == BoardError::Serialization ==> exists|i: int|
                    0 <= i < board@.requests.len() && (#[trigger] board@.requests[i]).reward is Some
                &&& error != BoardError::Conflict
            },
        },
        (forall|i: int|
            0 <= i < board@.requests.len() ==> readable(#[trigger] board@.requests[i])
                && board@.requests[i].reward is None) ==> listed is Ok,
        (exists|i: int| 0 <= i < board@.requests.len() && !readable(#[trigger] board@.requests[i]))
            ==> listed is Err,
        board.wf() && board@.canonical() ==> (listed matches Ok(requests) ==> forall|i: int, j: int|
            0 <= i < j < requests.len() ==> (#[trigger] requests[i])@.id
                != (#[trigger] requests[j])@.id),
{
    let mut requests: Vec<Request<T>> = Vec::new();
    let mut i: usize = 0;
    while i < board.len()
        invariant
            i <= board@.requests.len(),
            requests.len() == i,
            forall|k: int|
                0 <= k < i ==> {
                    &&& restored(board@.stored(k), (#[trigger] requests[k])@.reward) == Ok::<
                        RequestView<T>,
                        BoardError,
                    >(requests[k]@)
                    &&& requests[k].wf()
                },
            forall|k: int| 0 <= k < i ==> readable(#[trigger] board@.requests[k]),
        decreases board@.requests.len() - i,
    {
        let stored = board.stored(i);
        let decoded = match &stored.row().reward {
            Some(text) => T::decode(text.as_str()),
            None => None,
        };
        match Request::restore(&stored, decoded) {
            Ok(request) => {
                requests.push(request);
            },
            Err(error) => {
                assert(board@.stored(i as int).row == board@.requests[i as int]);
                assert(restored(board@.stored(i as int), decoded) == Err::<
                    RequestView<T>,
                    BoardError,
                >(error));
                return Err(error);
            },
        }
        i += 1;
    }
    proof {
        if board.wf() && board@.canonical() {
            assert forall|a: int, b: int| 0 <= a < b < requests.len() implies (
            #[trigger] requests[a])@.id != (#[trigger] requests[b])@.id by {
                assert(board@.stored(a).row == board@.requests[a]);
                assert(board@.stored(b).row == board@.requests[b]);
                lemma_listed_once(board@, a, b);
            }
        }
    }
    Ok(requests)
}

} // verus!
