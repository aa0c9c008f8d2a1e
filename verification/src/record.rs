//! The records that the board keeps: one parent record for a request, one
//! record for each of its labels and one for each of its tags, all keyed by
//! the text of the request's identity.

use vstd::prelude::*;
use crate::metadata::Text;

verus! {

/// The parent record of a request.
#[derive(Debug, PartialEq, Eq)]
pub struct RequestRow {
    pub id: String,
    pub title: String,
    pub description: String,
    pub reward: Option<String>,
    pub client_id: String,
}

/// One label of a request.
#[derive(Debug, PartialEq, Eq)]
pub struct LabelRow {
    pub request_id: String,
    pub key: String,
    pub value: String,
}

/// One tag of a request.
#[derive(Debug, PartialEq, Eq)]
pub struct TagRow {
    pub request_id: String,
    pub tag: String,
}

/// A parent record as the contracts see it.
pub struct RequestRowView {
    pub id: Text,
    pub title: Text,
    pub description: Text,
    pub reward: Option<Text>,
    pub client_id: Text,
}

/// A label record as the contracts see it.
pub struct LabelRowView {
    pub request_id: Text,
    pub key: Text,
    pub value: Text,
}

/// A tag record as the contracts see it.
pub struct TagRowView {
    pub request_id: Text,
    pub tag: Text,
}

impl View for RequestRow {
    type V = RequestRowView;

    open spec fn view(&self) -> RequestRowView {
        RequestRowView {
            id: self.id@,
            title: self.title@,
            description: self.description@,
            reward: match self.reward {
                Some(text) => Some(text@),
                None => None,
            },
            client_id: self.client_id@,
        }
    }
}

impl DeepView for RequestRow {
    type V = RequestRowView;

    open spec fn deep_view(&self) -> RequestRowView {
        self@
    }
}

impl View for LabelRow {
    type V = LabelRowView;

    open spec fn view(&self) -> LabelRowView {
        LabelRowView { request_id: self.request_id@, key: self.key@, value: self.value@ }
    }
}

impl DeepView for LabelRow {
    type V = LabelRowView;

    open spec fn deep_view(&self) -> LabelRowView {
        self@
    }
}

impl View for TagRow {
    type V = TagRowView;

    open spec fn view(&self) -> TagRowView {
        TagRowView { request_id: self.request_id@, tag: self.tag@ }
    }
}

impl DeepView for TagRow {
    type V = TagRowView;

    open spec fn deep_view(&self) -> TagRowView {
        self@
    }
}

impl RequestRow {
    /// A copy of this record.
    pub fn duplicate(&self) -> (row: RequestRow)
        ensures
            row@ == self@,
    {
        RequestRow {
            id: self.id.clone(),
            title: self.title.clone(),
            description: self.description.clone(),
            reward: match &self.reward {
                Some(text) => Some(text.clone()),
                None => None,
            },
            client_id: self.client_id.clone(),
        }
    }
}

impl LabelRow {
    /// A copy of this record.
    pub fn duplicate(&self) -> (row: LabelRow)
        ensures
            row@ == self@,
    {
        LabelRow {
            request_id: self.request_id.clone(),
            key: self.key.clone(),
            value: self.value.clone(),
        }
    }
}

impl TagRow {
    /// A copy of this record.
    pub fn duplicate(&self) -> (row: TagRow)
        ensures
            row@ == self@,
    {
        TagRow { request_id: self.request_id.clone(), tag: self.tag.clone() }
    }
}

/// No two parent records have the same identity.
pub open spec fn distinct_requests(rows: Seq<RequestRowView>) -> bool {
    forall|i: int, j: int|
        0 <= i < j < rows.len() ==> (#[trigger] rows[i]).id != (#[trigger] rows[j]).id
}

/// No two label records have the same identity and key.
pub open spec fn distinct_labels(rows: Seq<LabelRowView>) -> bool {
    forall|i: int, j: int|
        0 <= i < j < rows.len() ==> !((#[trigger] rows[i]).request_id == (
        #[trigger] rows[j]).request_id && rows[i].key == rows[j].key)
}

/// No two tag records have the same identity and tag.
pub open spec fn distinct_tag_rows(rows: Seq<TagRowView>) -> bool {
    forall|i: int, j: int|
        0 <= i < j < rows.len() ==> !((#[trigger] rows[i]).request_id == (
        #[trigger] rows[j]).request_id && rows[i].tag == rows[j].tag)
}

/// The label records of a request with the given identity and entries.
pub open spec fn label_rows(id: Text, entries: Seq<(Text, Text)>) -> Seq<LabelRowView> {
    Seq::new(
        entries.len(),
        |i: int| LabelRowView { request_id: id, key: entries[i].0, value: entries[i].1 },
    )
}

/// The tag records of a request with the given identity and tags.
pub open spec fn tag_rows(id: Text, tags: Seq<Text>) -> Seq<TagRowView> {
    Seq::new(tags.len(), |i: int| TagRowView { request_id: id, tag: tags[i] })
}

/// The entries that label records hold.
pub open spec fn row_entries(rows: Seq<LabelRowView>) -> Seq<(Text, Text)> {
    Seq::new(rows.len(), |i: int| (rows[i].key, rows[i].value))
}

/// The tags that tag records hold.
pub open spec fn row_tags(rows: Seq<TagRowView>) -> Seq<Text> {
    Seq::new(rows.len(), |i: int| rows[i].tag)
}

/// A request as the board keeps it: the parent record with the records of
/// its labels and tags.
#[derive(Debug, PartialEq, Eq)]
pub struct StoredRequest {
    row: RequestRow,
    labels: Vec<LabelRow>,
    tags: Vec<TagRow>,
}

/// A stored request as the contracts see it.
pub struct StoredView {
    pub row: RequestRowView,
    pub labels: Seq<LabelRowView>,
    pub tags: Seq<TagRowView>,
}

impl View for StoredRequest {
    type V = StoredView;

    closed spec fn view(&self) -> StoredView {
        StoredView {
            row: self.row@,
            labels: self.labels.deep_view(),
            tags: self.tags.deep_view(),
        }
    }
}

impl StoredRequest {
    /// Puts the records of one request together.
    pub(crate) fn from_parts(row: RequestRow, labels: Vec<LabelRow>, tags: Vec<TagRow>) -> (stored:
        StoredRequest)
        ensures
            stored@ == (StoredView {
                row: row@,
                labels: labels.deep_view(),
                tags: tags.deep_view(),
            }),
    {
        StoredRequest { row, labels, tags }
    }

    /// Takes the records of one request apart.
    pub(crate) fn into_parts(self) -> (parts: (RequestRow, Vec<LabelRow>, Vec<TagRow>))
        ensures
            parts.0@ == self@.row,
            parts.1.deep_view() == self@.labels,
            parts.2.deep_view() == self@.tags,
    {
        (self.row, self.labels, self.tags)
    }

    /// The parent record.
    pub fn row(&self) -> (row: &RequestRow)
        ensures
            row@ == self@.row,
    {
        &self.row
    }

    /// The label records.
    pub fn labels(&self) -> (rows: &Vec<LabelRow>)
        ensures
            rows.deep_view() == self@.labels,
    {
        &self.labels
    }

    /// The tag records.
    pub fn tags(&self) -> (rows: &Vec<TagRow>)
        ensures
            rows.deep_view() == self@.tags,
    {
        &self.tags
    }
}

impl StoredView {
    /// Every label and tag record carries the identity of the parent record,
    /// and no key and no tag occurs twice.
    pub open spec fn wf(self) -> bool {
        &&& forall|i: int|
            0 <= i < self.labels.len() ==> (#[trigger] self.labels[i]).request_id == self.row.id
        &&& forall|i: int|
            0 <= i < self.tags.len() ==> (#[trigger] self.tags[i]).request_id == self.row.id
        &&& distinct_labels(self.labels)
        &&& distinct_tag_rows(self.tags)
    }
}

} // verus!
