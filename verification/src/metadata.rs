//! The metadata of a request: a mapping from label key to label value and a
//! set of tags. It is fixed when the request is drafted.

use vstd::prelude::*;

verus! {

/// A text as the contracts see it.
pub type Text = Seq<char>;

/// The mapping that a list of label entries stands for. Where a key occurs
/// more than once, its last entry counts.
pub open spec fn label_map(entries: Seq<(Text, Text)>) -> Map<Text, Text>
    decreases entries.len(),
{
    if entries.len() == 0 {
        Map::empty()
    } else {
        label_map(entries.drop_last()).insert(entries.last().0, entries.last().1)
    }
}

/// The set that a list of tags stands for.
pub open spec fn tag_set(tags: Seq<Text>) -> Set<Text> {
    tags.to_set()
}

/// No two entries have the same key.
pub open spec fn distinct_keys(entries: Seq<(Text, Text)>) -> bool {
    forall|i: int, j: int|
        0 <= i < j < entries.len() ==> (#[trigger] entries[i]).0 != (#[trigger] entries[j]).0
}

/// The keys of the mapping are the keys of the entries.
pub proof fn lemma_label_map_keys(entries: Seq<(Text, Text)>, key: Text)
    ensures
        label_map(entries).dom().contains(key) <==> exists|i: int|
            0 <= i < entries.len() && (#[trigger] entries[i]).0 == key,
    decreases entries.len(),
{
    if entries.len() > 0 {
        let front = entries.drop_last();
        lemma_label_map_keys(front, key);
        if label_map(entries).dom().contains(key) {
            if entries.last().0 == key {
                assert(entries[entries.len() - 1].0 == key);
            } else {
                let i = choose|i: int| 0 <= i < front.len() && (#[trigger] front[i]).0 == key;
                assert(entries[i].0 == key);
            }
        }
        if exists|i: int| 0 <= i < entries.len() && (#[trigger] entries[i]).0 == key {
            let i = choose|i: int| 0 <= i < entries.len() && (#[trigger] entries[i]).0 == key;
            if i < entries.len() - 1 {
                assert(front[i].0 == key);
            }
        }
    }
}

/// Where no later entry has the same key, an entry's value is the value of
/// its key in the mapping.
pub proof fn lemma_label_map_value(entries: Seq<(Text, Text)>, i: int)
    requires
        0 <= i < entries.len(),
        forall|j: int| i < j < entries.len() ==> (#[trigger] entries[j]).0 != entries[i].0,
    ensures
        label_map(entries).dom().contains(entries[i].0),
        label_map(entries)[entries[i].0] == entries[i].1,
    decreases entries.len(),
{
    if i < entries.len() - 1 {
        let front = entries.drop_last();
        assert(entries[entries.len() - 1].0 != entries[i].0);
        assert forall|j: int| i < j < front.len() implies (#[trigger] front[j]).0 != front[i].0 by {
            assert(entries[j].0 != entries[i].0);
        }
        lemma_label_map_value(front, i);
    }
}

/// Replacing the value of a key that occurs once is an insertion into the
/// mapping.
pub proof fn lemma_label_map_update(entries: Seq<(Text, Text)>, i: int, entry: (Text, Text))
    requires
        0 <= i < entries.len(),
        distinct_keys(entries),
        entry.0 == entries[i].0,
    ensures
        distinct_keys(entries.update(i, entry)),
        label_map(entries.update(i, entry)) == label_map(entries).insert(entry.0, entry.1),
{
    let after = entries.update(i, entry);
    assert(distinct_keys(after)) by {
        assert forall|a: int, b: int| 0 <= a < b < after.len() implies (#[trigger] after[a]).0 != (
        #[trigger] after[b]).0 by {
            assert(entries[a].0 != entries[b].0);
        }
    }
    let left = label_map(after);
    let right = label_map(entries).insert(entry.0, entry.1);
    assert forall|key: Text| left.dom().contains(key) <==> right.dom().contains(key) by {
        lemma_label_map_keys(after, key);
        lemma_label_map_keys(entries, key);
        if left.dom().contains(key) {
            let a = choose|a: int| 0 <= a < after.len() && (#[trigger] after[a]).0 == key;
            assert(entries[a].0 == key);
        }
        if label_map(entries).dom().contains(key) {
            let a = choose|a: int| 0 <= a < entries.len() && (#[trigger] entries[a]).0 == key;
            assert(after[a].0 == key);
        }
        if key == entry.0 {
            assert(after[i].0 == key);
        }
    }
    assert forall|key: Text| left.dom().contains(key) implies left[key] == right[key] by {
        lemma_label_map_keys(after, key);
        let a = choose|a: int| 0 <= a < after.len() && (#[trigger] after[a]).0 == key;
        assert forall|b: int| a < b < after.len() implies (#[trigger] after[b]).0 != after[a].0 by {
            assert(after[a].0 != after[b].0);
        }
        lemma_label_map_value(after, a);
        if a != i {
            assert(entries[a].0 != entries[i].0) by {
                if a < i {
                    assert(entries[a].0 != entries[i].0);
                } else {
                    assert(entries[i].0 != entries[a].0);
                }
            }
            assert forall|b: int| a < b < entries.len() implies (#[trigger] entries[b]).0
                != entries[a].0 by {
                assert(entries[a].0 != entries[b].0);
            }
            lemma_label_map_value(entries, a);
        }
    }
    assert(left =~= right);
}

/// The labels and tags of a request.
#[derive(Debug, PartialEq, Eq)]
pub struct Metadata {
    labels: Vec<(String, String)>,
    tags: Vec<String>,
}

/// Metadata as a mapping and a set.
pub struct MetadataView {
    pub labels: Map<Text, Text>,
    pub tags: Set<Text>,
}

impl View for Metadata {
    type V = MetadataView;

    open spec fn view(&self) -> MetadataView {
        MetadataView { labels: label_map(self.entries()), tags: tag_set(self.tag_list()) }
    }
}

/// The index of the entry with the given key.
fn find_key(entries: &Vec<(String, String)>, key: &String) -> (found: Option<usize>)
    ensures
        match found {
            Some(i) => i < entries.len() && entries.deep_view()[i as int].0 == key@,
            None => forall|i: int|
                0 <= i < entries.len() ==> (#[trigger] entries.deep_view()[i]).0 != key@,
        },
{
    let mut i: usize = 0;
    while i < entries.len()
        invariant
            i <= entries.len(),
            forall|k: int| 0 <= k < i ==> (#[trigger] entries.deep_view()[k]).0 != key@,
        decreases entries.len() - i,
    {
        if entries[i].0 == *key {
            return Some(i);
        }
        i += 1;
    }
    None
}

/// Whether the tag is in the list.
fn find_tag(tags: &Vec<String>, tag: &String) -> (found: bool)
    ensures
        found == tags.deep_view().contains(tag@),
{
    let mut i: usize = 0;
    while i < tags.len()
        invariant
            i <= tags.len(),
            forall|k: int| 0 <= k < i ==> (#[trigger] tags.deep_view()[k]) != tag@,
        decreases tags.len() - i,
    {
        if tags[i] == *tag {
            assert(tags.deep_view()[i as int] == tag@);
            return true;
        }
        i += 1;
    }
    false
}

impl Metadata {
    /// The label entries, in the order in which they are kept.
    pub closed spec fn entries(&self) -> Seq<(Text, Text)> {
        self.labels.deep_view()
    }

    /// The tags, in the order in which they are kept.
    pub closed spec fn tag_list(&self) -> Seq<Text> {
        self.tags.deep_view()
    }

    /// No key and no tag is kept twice.
    pub open spec fn wf(&self) -> bool {
        &&& distinct_keys(self.entries())
        &&& self.tag_list().no_duplicates()
    }

    /// Metadata without labels and tags.
    pub fn empty() -> (metadata: Metadata)
        ensures
            metadata.wf(),
            metadata.entries() == Seq::<(Text, Text)>::empty(),
            metadata.tag_list() == Seq::<Text>::empty(),
    {
        let metadata = Metadata { labels: Vec::new(), tags: Vec::new() };
        assert(metadata.entries() =~= Seq::<(Text, Text)>::empty());
        assert(metadata.tag_list() =~= Seq::<Text>::empty());
        metadata
    }

    /// Metadata with the given labels and tags; each defaults to none. Of two
    /// entries with one key the later counts, and a tag given twice is kept
    /// once.
    pub fn new(labels: Option<Vec<(String, String)>>, tags: Option<Vec<String>>) -> (metadata:
        Metadata)
        ensures
            metadata.wf(),
            metadata@.labels == match labels {
                Some(given) => label_map(given.deep_view()),
                None => Map::empty(),
            },
            metadata@.tags == match tags {
                Some(given) => tag_set(given.deep_view()),
                None => Set::empty(),
            },
    {
        let mut kept_labels: Vec<(String, String)> = Vec::new();
        if let Some(given) = &labels {
            let mut i: usize = 0;
            while i < given.len()
                invariant
                    i <= given.len(),
                    distinct_keys(kept_labels.deep_view()),
                    label_map(kept_labels.deep_view()) == label_map(
                        given.deep_view().take(i as int),
                    ),
                decreases given.len() - i,
            {
                let entry = (given[i].0.clone(), given[i].1.clone());
                let ghost before = kept_labels.deep_view();
                proof {
                    let next = given.deep_view().take(i + 1);
                    assert(next.drop_last() == given.deep_view().take(i as int));
                    assert(next.last() == entry.deep_view());
                }
                match find_key(&kept_labels, &entry.0) {
                    Some(at) => {
                        kept_labels.set(at, entry);
                        proof {
                            lemma_label_map_update(before, at as int, entry.deep_view());
                            assert(kept_labels.deep_view() == before.update(
                                at as int,
                                entry.deep_view(),
                            ));
                        }
                    },
                    None => {
                        kept_labels.push(entry);
                        proof {
                            let after = kept_labels.deep_view();
                            assert(after == before.push(entry.deep_view()));
                            assert(after.drop_last() == before);
                            assert forall|a: int, b: int| 0 <= a < b < after.len() implies (
                            #[trigger] after[a]).0 != (#[trigger] after[b]).0 by {
                                if b < before.len() {
                                    assert(before[a].0 != before[b].0);
                                } else {
                                    assert(before[a].0 != entry.0@);
                                }
                            }
                        }
                    },
                }
                i += 1;
            }
            assert(given.deep_view().take(given.len() as int) == given.deep_view());
        }
        let mut kept_tags: Vec<String> = Vec::new();
        assert(kept_tags.deep_view() =~= Seq::<Text>::empty());
        if let Some(given) = &tags {
            let mut i: usize = 0;
            assert(given.deep_view().take(0) =~= Seq::<Text>::empty());
            while i < given.len()
                invariant
                    i <= given.len(),
                    kept_tags.deep_view().no_duplicates(),
                    kept_tags.deep_view().to_set() == given.deep_view().take(i as int).to_set(),
                decreases given.len() - i,
            {
                let tag = given[i].clone();
                let ghost before = kept_tags.deep_view();
                let ghost seen = given.deep_view().take(i as int);
                let known = find_tag(&kept_tags, &tag);
                if !known {
                    kept_tags.push(tag);
                    assert(kept_tags.deep_view() == before.push(tag@));
                }
                proof {
                    let after = kept_tags.deep_view();
                    let next = given.deep_view().take(i + 1);
                    assert(next == seen.push(tag@));
                    seen.lemma_push_to_set_commute(tag@);
                    if known {
                        assert(before.to_set().contains(tag@));
                        assert(before.to_set().insert(tag@) =~= before.to_set());
                    } else {
                        before.lemma_push_to_set_commute(tag@);
                        assert forall|a: int, b: int| 0 <= a < after.len() && 0 <= b < after.len()
                            && a != b implies after[a] != after[b] by {
                            if a < before.len() && b < before.len() {
                                assert(before[a] != before[b]);
                            } else if a < before.len() {
                                assert(before.contains(before[a]));
                            } else {
                                assert(before.contains(before[b]));
                            }
                        }
                    }
                }
                i += 1;
            }
            assert(given.deep_view().take(given.len() as int) == given.deep_view());
        } else {
            assert(kept_tags.deep_view().to_set() =~= Set::<Text>::empty());
        }
        Metadata { labels: kept_labels, tags: kept_tags }
    }

    /// The label entries.
    pub fn labels(&self) -> (entries: &Vec<(String, String)>)
        ensures
            entries.deep_view() == self.entries(),
    {
        &self.labels
    }

    /// The tags.
    pub fn tags(&self) -> (tags: &Vec<String>)
        ensures
            tags.deep_view() == self.tag_list(),
    {
        &self.tags
    }

    /// The value of a label, if the key is present.
    pub fn label(&self, key: &String) -> (value: Option<&String>)
        requires
            self.wf(),
        ensures
            match value {
                Some(v) => self@.labels.dom().contains(key@) && self@.labels[key@] == v@,
                None => !self@.labels.dom().contains(key@),
            },
    {
        let ghost entries = self.labels.deep_view();
        proof {
            lemma_label_map_keys(entries, key@);
        }
        match find_key(&self.labels, key) {
            Some(at) => {
                proof {
                    assert forall|j: int| at < j < entries.len() implies (#[trigger] entries[j]).0
                        != entries[at as int].0 by {
                        assert(entries[at as int].0 != entries[j].0);
                    }
                    lemma_label_map_value(entries, at as int);
                }
                Some(&self.labels[at].1)
            },
            None => None,
        }
    }

    /// Whether the tag is present.
    pub fn has_tag(&self, tag: &String) -> (present: bool)
        ensures
            present == self@.tags.contains(tag@),
    {
        find_tag(&self.tags, tag)
    }
}

} // verus!
