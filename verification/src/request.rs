//! The stages of a request. A draft exists in memory only; publishing it
//! gives an open request, which the board keeps; claiming an open request
//! takes it off the board; a claim is completed, which releases the reward,
//! or abandoned, which puts the request back. Each step takes the stage
//! before it by value.

use vstd::prelude::*;
use crate::board::{delist_request, publish, Board, BoardError};
use crate::identity::{canonical_text, uuid_parsed, Identifier};
use crate::metadata::{distinct_keys, label_map, tag_set, Metadata, MetadataView, Text};
use crate::record::{
    label_rows, row_entries, row_tags, tag_rows, LabelRow, LabelRowView, RequestRow,
    RequestRowView, StoredRequest, StoredView, TagRow, TagRowView,
};
use crate::reward::Rewardable;

verus! {

/// A draft as the contracts see it.
pub struct DraftView {
    pub id: u128,
    pub title: Text,
    pub description: Text,
    pub metadata: MetadataView,
    pub client_id: u128,
}

/// An open request as the contracts see it.
pub struct RequestView<T> {
    pub id: u128,
    pub title: Text,
    pub description: Text,
    pub metadata: MetadataView,
    pub client_id: u128,
    pub reward: Option<T>,
}

/// A claimed request as the contracts see it.
pub struct AcceptedView<T> {
    pub request: RequestView<T>,
    pub member_id: u128,
}

/// A request that is not yet published.
#[derive(Debug)]
pub struct DraftedRequest {
    id: Identifier,
    title: String,
    description: String,
    metadata: Metadata,
    client_id: Identifier,
}

/// A published request: it is open for claiming.
#[derive(Debug)]
pub struct Request<T> {
    id: Identifier,
    title: String,
    description: String,
    metadata: Metadata,
    client_id: Identifier,
    reward: Option<T>,
}

/// A request that a member has claimed.
#[derive(Debug)]
pub struct AcceptedRequest<T> {
    request: Request<T>,
    member_id: Identifier,
}

impl View for DraftedRequest {
    type V = DraftView;

    closed spec fn view(&self) -> DraftView {
        DraftView {
            id: self.id@,
            title: self.title@,
            description: self.description@,
            metadata: self.metadata@,
            client_id: self.client_id@,
        }
    }
}

impl<T> View for Request<T> {
    type V = RequestView<T>;

    closed spec fn view(&self) -> RequestView<T> {
        RequestView {
            id: self.id@,
            title: self.title@,
            description: self.description@,
            metadata: self.metadata@,
            client_id: self.client_id@,
            reward: self.reward,
        }
    }
}

impl<T> View for AcceptedRequest<T> {
    type V = AcceptedView<T>;

    closed spec fn view(&self) -> AcceptedView<T> {
        AcceptedView { request: self.request@, member_id: self.member_id@ }
    }
}

/// The request that is read from stored records and a decoded reward. The
/// reward counts only where the parent record holds a reward text; a text
/// that was decoded to nothing is a failure.
pub open spec fn restored<T>(stored: StoredView, reward: Option<T>) -> Result<
    RequestView<T>,
    BoardError,
> {
    if uuid_parsed(stored.row.client_id) is None {
        Err(BoardError::IdentityFormat)
    } else if stored.row.reward is Some && reward is None {
        Err(BoardError::Serialization)
    } else if uuid_parsed(stored.row.id) is None {
        Err(BoardError::IdentityFormat)
    } else {
        Ok(
            RequestView {
                id: uuid_parsed(stored.row.id)->0,
                title: stored.row.title,
                description: stored.row.description,
                metadata: MetadataView {
                    labels: label_map(row_entries(stored.labels)),
                    tags: tag_set(row_tags(stored.tags)),
                },
                client_id: uuid_parsed(stored.row.client_id)->0,
                reward: if stored.row.reward is Some {
                    reward
                } else {
                    None
                },
            },
        )
    }
}

impl DraftedRequest {
    /// The title is not empty, and the identities and the metadata are
    /// well-formed.
    pub closed spec fn wf(&self) -> bool {
        &&& self.title@.len() > 0
        &&& self.id.wf()
        &&& self.client_id.wf()
        &&& self.metadata.wf()
    }

    /// The label entries and tags in the order in which the draft keeps them.
    pub closed spec fn metadata_kept(&self) -> Metadata {
        self.metadata
    }

    /// Drafts a request with a title that is not empty, under a fresh random
    /// identity. Labels and tags default to none.
    pub fn new(
        title: String,
        description: String,
        labels: Option<Vec<(String, String)>>,
        tags: Option<Vec<String>>,
        client_id: Identifier,
    ) -> (draft: DraftedRequest)
        requires
            title@.len() > 0,
            client_id.wf(),
        ensures
            draft.wf(),
            draft@.title == title@,
            draft@.description == description@,
            draft@.metadata.labels == match labels {
                Some(given) => label_map(given.deep_view()),
                None => Map::empty(),
            },
            draft@.metadata.tags == match tags {
                Some(given) => tag_set(given.deep_view()),
                None => Set::empty(),
            },
            draft@.client_id == client_id@,
    {
        DraftedRequest::with_id(Identifier::generate(), title, description, labels, tags, client_id)
    }

    /// Drafts a request with a title that is not empty, under the given
    /// identity.
    pub fn with_id(
        id: Identifier,
        title: String,
        description: String,
        labels: Option<Vec<(String, String)>>,
        tags: Option<Vec<String>>,
        client_id: Identifier,
    ) -> (draft: DraftedRequest)
        requires
            title@.len() > 0,
            id.wf(),
            client_id.wf(),
        ensures
            draft.wf(),
            draft@.id == id@,
            draft@.title == title@,
            draft@.description == description@,
            draft@.metadata.labels == match labels {
                Some(given) => label_map(given.deep_view()),
                None => Map::empty(),
            },
            draft@.metadata.tags == match tags {
                Some(given) => tag_set(given.deep_view()),
                None => Set::empty(),
            },
            draft@.client_id == client_id@,
    {
        DraftedRequest { id, title, description, metadata: Metadata::new(labels, tags), client_id }
    }

    /// The identity of the request.
    pub fn get_id(&self) -> (id: &Identifier)
        ensures
            id@ == self@.id,
            self.wf() ==> id.wf(),
    {
        &self.id
    }

    /// The title.
    pub fn title(&self) -> (title: &String)
        ensures
            title@ == self@.title,
            self.wf() ==> title@.len() > 0,
    {
        &self.title
    }

    /// The description.
    pub fn description(&self) -> (description: &String)
        ensures
            description@ == self@.description,
    {
        &self.description
    }

    /// The labels and tags.
    pub fn metadata(&self) -> (metadata: &Metadata)
        ensures
            *metadata == self.metadata_kept(),
            metadata@ == self@.metadata,
            self.wf() ==> metadata.wf(),
    {
        &self.metadata
    }

    /// The identity of the client who drafted the request.
    pub fn client_id(&self) -> (id: &Identifier)
        ensures
            id@ == self@.client_id,
            self.wf() ==> id.wf(),
    {
        &self.client_id
    }

    /// Turns the draft into a request that carries the given reward. Nothing
    /// is written: `publish` does both.
    pub fn advance<T: Rewardable>(self, reward: Option<T>) -> (request: Request<T>)
        ensures
            request@ == (RequestView {
                id: self@.id,
                title: self@.title,
                description: self@.description,
                metadata: self@.metadata,
                client_id: self@.client_id,
                reward,
            }),
            request.metadata_kept() == self.metadata_kept(),
            self.wf() ==> request.wf(),
    {
        Request {
            id: self.id,
            title: self.title,
            description: self.description,
            metadata: self.metadata,
            client_id: self.client_id,
            reward,
        }
    }
}

impl<T: Rewardable> Request<T> {
    /// The identities and the metadata are well-formed.
    pub closed spec fn wf(&self) -> bool {
        &&& self.id.wf()
        &&& self.client_id.wf()
        &&& self.metadata.wf()
    }

    /// The label entries and tags in the order in which the request keeps
    /// them.
    pub closed spec fn metadata_kept(&self) -> Metadata {
        self.metadata
    }

    /// The records that stand for this request on the board, with the given
    /// text for its reward.
    pub open spec fn stored(&self, reward: Option<Text>) -> StoredView {
        let id = canonical_text(self@.id);
        StoredView {
            row: RequestRowView {
                id,
                title: self@.title,
                description: self@.description,
                reward,
                client_id: canonical_text(self@.client_id),
            },
            labels: label_rows(id, self.metadata_kept().entries()),
            tags: tag_rows(id, self.metadata_kept().tag_list()),
        }
    }

    /// The identity of the request.
    pub fn get_id(&self) -> (id: &Identifier)
        ensures
            id@ == self@.id,
            self.wf() ==> id.wf(),
    {
        &self.id
    }

    /// The title.
    pub fn title(&self) -> (title: &String)
        ensures
            title@ == self@.title,
    {
        &self.title
    }

    /// The description.
    pub fn description(&self) -> (description: &String)
        ensures
            description@ == self@.description,
    {
        &self.description
    }

    /// The labels and tags.
    pub fn metadata(&self) -> (metadata: &Metadata)
        ensures
            *metadata == self.metadata_kept(),
            metadata@ == self@.metadata,
            self.wf() ==> metadata.wf(),
    {
        &self.metadata
    }

    /// The identity of the client who published the request.
    pub fn client_id(&self) -> (id: &Identifier)
        ensures
            id@ == self@.client_id,
            self.wf() ==> id.wf(),
    {
        &self.client_id
    }

    /// The reward, if the request carries one.
    pub fn reward(&self) -> (reward: Option<&T>)
        ensures
            match reward {
                Some(payload) => self@.reward == Some(*payload),
                None => self@.reward is None,
            },
    {
        self.reward.as_ref()
    }

    /// The records that stand for this request, with the given text for its
    /// reward.
    pub fn stored_form(&self, reward: Option<String>) -> (stored: StoredRequest)
        requires
            self.wf(),
        ensures
            stored@ == self.stored(reward.deep_view()),
            stored@.wf(),
    {
        let entries = self.metadata.labels();
        let mut labels: Vec<LabelRow> = Vec::new();
        let mut i: usize = 0;
        while i < entries.len()
            invariant
                i <= entries.len(),
                labels.len() == i,
                forall|k: int|
                    0 <= k < i ==> (#[trigger] labels.deep_view()[k]) == (LabelRowView {
                        request_id: self.id.text(),
                        key: entries.deep_view()[k].0,
                        value: entries.deep_view()[k].1,
                    }),
            decreases entries.len() - i,
        {
            let ghost before = labels.deep_view();
            let row = LabelRow {
                request_id: self.id.as_str().to_owned(),
                key: entries[i].0.clone(),
                value: entries[i].1.clone(),
            };
            labels.push(row);
            assert(labels.deep_view() =~= before.push(row@));
            i += 1;
        }
        let names = self.metadata.tags();
        let mut tags: Vec<TagRow> = Vec::new();
        let mut i: usize = 0;
        while i < names.len()
            invariant
                i <= names.len(),
                tags.len() == i,
                forall|k: int|
                    0 <= k < i ==> (#[trigger] tags.deep_view()[k]) == (TagRowView {
                        request_id: self.id.text(),
                        tag: names.deep_view()[k],
                    }),
            decreases names.len() - i,
        {
            let ghost before = tags.deep_view();
            let row = TagRow { request_id: self.id.as_str().to_owned(), tag: names[i].clone() };
            tags.push(row);
            assert(tags.deep_view() =~= before.push(row@));
            i += 1;
        }
        let row = RequestRow {
            id: self.id.as_str().to_owned(),
            title: self.title.clone(),
            description: self.description.clone(),
            reward,
            client_id: self.client_id.as_str().to_owned(),
        };
        proof {
            assert(labels.deep_view() =~= label_rows(self.id.text(), self.metadata.entries()));
            assert(tags.deep_view() =~= tag_rows(self.id.text(), self.metadata.tag_list()));
            lemma_rows_wf(row@, self.metadata.entries(), self.metadata.tag_list());
        }
        StoredRequest::from_parts(row, labels, tags)
    }

    /// Reads a request from its records and its decoded reward. It fails
    /// where a stored identity cannot be read, and where the parent record
    /// holds a reward text that was decoded to nothing.
    pub fn restore(stored: &StoredRequest, reward: Option<T>) -> (request: Result<
        Request<T>,
        BoardError,
    >)
        ensures
            match request {
                Ok(request) => restored(stored@, reward) == Ok::<RequestView<T>, BoardError>(
                    request@,
                ) && request.wf(),
                Err(error) => restored(stored@, reward) == Err::<RequestView<T>, BoardError>(error),
            },
    {
        let row = stored.row();
        let client_id = match Identifier::parse(row.client_id.as_str()) {
            Some(id) => id,
            None => {
                return Err(BoardError::IdentityFormat);
            },
        };
        let reward = match &row.reward {
            Some(_) => match reward {
                Some(payload) => Some(payload),
                None => {
                    return Err(BoardError::Serialization);
                },
            },
            None => None,
        };
        let id = match Identifier::parse(row.id.as_str()) {
            Some(id) => id,
            None => {
                return Err(BoardError::IdentityFormat);
            },
        };
        let rows = stored.labels();
        let mut entries: Vec<(String, String)> = Vec::new();
        let mut i: usize = 0;
        while i < rows.len()
            invariant
                i <= rows.len(),
                entries.len() == i,
                forall|k: int|
                    0 <= k < i ==> (#[trigger] entries.deep_view()[k]) == (
                        rows.deep_view()[k].key,
                        rows.deep_view()[k].value,
                    ),
            decreases rows.len() - i,
        {
            let ghost before = entries.deep_view();
            let entry = (rows[i].key.clone(), rows[i].value.clone());
            entries.push(entry);
            assert(entries.deep_view() =~= before.push(entry.deep_view()));
            i += 1;
        }
        let rows = stored.tags();
        let mut names: Vec<String> = Vec::new();
        let mut i: usize = 0;
        while i < rows.len()
            invariant
                i <= rows.len(),
                names.len() == i,
                forall|k: int| 0 <= k < i ==> (#[trigger] names.deep_view()[k]) == rows.deep_view()[k].tag,
            decreases rows.len() - i,
        {
            let ghost before = names.deep_view();
            let name = rows[i].tag.clone();
            names.push(name);
            assert(names.deep_view() =~= before.push(name@));
            i += 1;
        }
        proof {
            assert(entries.deep_view() =~= row_entries(stored@.labels));
            assert(names.deep_view() =~= row_tags(stored@.tags));
        }
        Ok(
            Request {
                id,
                title: row.title.clone(),
                description: row.description.clone(),
                metadata: Metadata::new(Some(entries), Some(names)),
                client_id,
                reward,
            },
        )
    }

    /// Claims the request for a member: its records leave the board. This
    /// does not fail, whether or not the board held the request.
    pub fn claim(self, member_id: Identifier, board: &mut Board) -> (claimed: Result<
        AcceptedRequest<T>,
        BoardError,
    >)
        requires
            self.wf(),
            member_id.wf(),
        ensures
            final(board)@ == old(board)@.without(canonical_text(self@.id)),
            old(board).wf() ==> final(board).wf(),
            old(board)@.canonical() ==> final(board)@.canonical(),
            !final(board)@.holds(canonical_text(self@.id)),
            claimed matches Ok(accepted) && accepted@ == (AcceptedView {
                request: self@,
                member_id: member_id@,
            }) && accepted.wf() && accepted.request_kept().metadata_kept() == self.metadata_kept(),
    {
        match delist_request(board, &self.id) {
            Ok(()) => Ok(AcceptedRequest { request: self, member_id }),
            Err(error) => Err(error),
        }
    }
}

impl DraftedRequest {
    /// Publishes the draft with the given reward: the request is written to
    /// the board and handed back. Where writing fails, the board stays as it
    /// was.
    pub fn publish<T: Rewardable>(self, reward: Option<T>, board: &mut Board) -> (published:
        Result<Request<T>, BoardError>)
        requires
            self.wf(),
            old(board).wf(),
        ensures
            final(board).wf(),
            old(board)@.canonical() ==> final(board)@.canonical(),
            match published {
                Ok(request) => {
                    &&& request@ == (RequestView {
                        id: self@.id,
                        title: self@.title,
                        description: self@.description,
                        metadata: self@.metadata,
                        client_id: self@.client_id,
                        reward,
                    })
                    &&& request.wf()
                    &&& request.metadata_kept() == self.metadata_kept()
                    &&& !old(board)@.holds(canonical_text(self@.id))
                    &&& exists|text: Option<Text>|
                        text is Some == reward is Some && final(board)@ == old(board)@.with(
                            #[trigger] request.stored(text),
                        )
                },
                Err(error) => {
                    &&& final(board)@ == old(board)@
                    &&& error == BoardError::Conflict ==> old(board)@.holds(
                        canonical_text(self@.id),
                    )
                    &&& error == BoardError::Serialization ==> reward is Some
                    &&& error != BoardError::IdentityFormat
                },
            },
            reward is None ==> (published is Ok <==> !old(board)@.holds(canonical_text(self@.id))),
    {
        let request = self.advance(reward);
        match publish(board, &request) {
            Ok(()) => Ok(request),
            Err(error) => Err(error),
        }
    }
}

impl<T: Rewardable> AcceptedRequest<T> {
    /// The identities and the metadata are well-formed.
    pub closed spec fn wf(&self) -> bool {
        &&& self.request.wf()
        &&& self.member_id.wf()
    }

    /// The claimed request.
    pub closed spec fn request_kept(&self) -> Request<T> {
        self.request
    }

    /// The claimed request.
    pub fn request(&self) -> (request: &Request<T>)
        ensures
            *request == self.request_kept(),
            request@ == self@.request,
            self.wf() ==> request.wf(),
    {
        &self.request
    }

    /// The identity of the member who claimed the request.
    pub fn member_id(&self) -> (id: &Identifier)
        ensures
            id@ == self@.member_id,
            self.wf() ==> id.wf(),
    {
        &self.member_id
    }

    /// Gives the claim up: the request is written to the board again, under
    /// its old identity and with its old metadata, and handed back. Where
    /// writing fails, the board stays as it was.
    pub fn abandon(self, board: &mut Board) -> (reopened: Result<Request<T>, BoardError>)
        requires
            self.wf(),
            old(board).wf(),
        ensures
            final(board).wf(),
            old(board)@.canonical() ==> final(board)@.canonical(),
            match reopened {
                Ok(request) => {
                    &&& request == self.request_kept()
                    &&& request@ == self@.request
                    &&& request.wf()
                    &&& !old(board)@.holds(canonical_text(self@.request.id))
                    &&& exists|text: Option<Text>|
                        text is Some == self@.request.reward is Some && final(board)@ == old(
                            board,
                        )@.with(#[trigger] request.stored(text))
                },
                Err(error) => {
                    &&& final(board)@ == old(board)@
                    &&& error == BoardError::Conflict ==> old(board)@.holds(
                        canonical_text(self@.request.id),
                    )
                    &&& error == BoardError::Serialization ==> self@.request.reward is Some
                    &&& error != BoardError::IdentityFormat
                },
            },
            self@.request.reward is None ==> (reopened is Ok <==> !old(board)@.holds(
                canonical_text(self@.request.id),
            )),
    {
        match publish(board, &self.request) {
            Ok(()) => Ok(self.request),
            Err(error) => Err(error),
        }
    }

    /// Completes the claim: the reward, if there is one, is released, once.
    /// The claim is used up, so that it cannot be completed again. The
    /// result says whether a reward was released.
    pub fn complete(self) -> (released: bool)
        ensures
            released == self@.request.reward is Some,
    {
        match self.request.reward {
            Some(payload) => {
                payload.release();
                true
            },
            None => false,
        }
    }
}

/// Reading the records of a request gives the request back: its identity,
/// title, description, metadata and client, with the reward that the
/// decoder made of the stored text. A request without a reward is read
/// without one.
pub proof fn lemma_stored_restores<T: Rewardable>(
    request: Request<T>,
    text: Option<Text>,
    reward: Option<T>,
)
    requires
        request.wf(),
    ensures
        request.stored(text).wf(),
        request.stored(text).row.id == canonical_text(request@.id),
        uuid_parsed(canonical_text(request@.id)) == Some(request@.id),
        restored(request.stored(text), reward) == if text is Some && reward is None {
            Err::<RequestView<T>, BoardError>(BoardError::Serialization)
        } else {
            Ok::<RequestView<T>, BoardError>(
                RequestView {
                    id: request@.id,
                    title: request@.title,
                    description: request@.description,
                    metadata: request@.metadata,
                    client_id: request@.client_id,
                    reward: if text is Some {
                        reward
                    } else {
                        None
                    },
                },
            )
        },
{
    let stored = request.stored(text);
    let entries = request.metadata.entries();
    let tags = request.metadata.tag_list();
    lemma_rows_wf(stored.row, entries, tags);
    assert(row_entries(stored.labels) =~= entries);
    assert(row_tags(stored.tags) =~= tags);
}

/// The records of a request carry its identity, and no key and no tag
/// occurs twice among them.
pub proof fn lemma_rows_wf(row: RequestRowView, entries: Seq<(Text, Text)>, tags: Seq<Text>)
    requires
        distinct_keys(entries),
        tags.no_duplicates(),
    ensures
        (StoredView { row, labels: label_rows(row.id, entries), tags: tag_rows(row.id, tags) }).wf(),
{
    let labels = label_rows(row.id, entries);
    let tag_records = tag_rows(row.id, tags);
    assert forall|i: int, j: int| 0 <= i < j < labels.len() implies !((
    #[trigger] labels[i]).request_id == (#[trigger] labels[j]).request_id && labels[i].key
        == labels[j].key) by {
        assert(entries[i].0 != entries[j].0);
    }
    assert forall|i: int, j: int| 0 <= i < j < tag_records.len() implies !((
    #[trigger] tag_records[i]).request_id == (#[trigger] tag_records[j]).request_id
        && tag_records[i].tag == tag_records[j].tag) by {
        assert(tags[i] != tags[j]);
    }
}

} // verus!
