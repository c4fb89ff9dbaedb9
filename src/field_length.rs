use vstd::prelude::*;

verus! {

/// The lengths recorded for one field of one type.
#[derive(Debug)]
pub struct FieldLengths {
    pub parent_type: String,
    pub field: String,
    pub lengths: Vec<usize>,
}

pub open spec fn entry_key(e: FieldLengths) -> (Seq<char>, Seq<char>) {
    (e.parent_type@, e.field@)
}

pub open spec fn has_key(entries: Seq<FieldLengths>, k: (Seq<char>, Seq<char>)) -> bool {
    exists|i: int| 0 <= i < entries.len() && entry_key(#[trigger] entries[i]) == k
}

/// The lengths recorded for the field `k`, oldest first.
pub open spec fn lengths_of(entries: Seq<FieldLengths>, k: (Seq<char>, Seq<char>)) -> Seq<usize> {
    if has_key(entries, k) {
        let i = choose|i: int| 0 <= i < entries.len() && entry_key(#[trigger] entries[i]) == k;
        entries[i].lengths@
    } else {
        Seq::empty()
    }
}

pub open spec fn keys_unique(entries: Seq<FieldLengths>) -> bool {
    forall|i: int, j: int|
        0 <= i < entries.len() && 0 <= j < entries.len() && i != j ==> entry_key(#[trigger] entries[i])
            != entry_key(#[trigger] entries[j])
}

proof fn lemma_lengths_at(entries: Seq<FieldLengths>, k: (Seq<char>, Seq<char>), i: int)
    requires
        keys_unique(entries),
        0 <= i < entries.len(),
        entry_key(entries[i]) == k,
    ensures
        lengths_of(entries, k) == entries[i].lengths@,
{
    assert(has_key(entries, k));
}

/// Records, per type and field, the lengths of the lists that responses held.
#[derive(Debug)]
pub struct FieldLengthRecorder {
    pub field_lengths: Vec<FieldLengths>,
}

impl FieldLengthRecorder {
    pub open spec fn wf(&self) -> bool {
        keys_unique(self.field_lengths@)
    }

    pub fn new() -> (r: Self)
        ensures
            r.wf(),
            forall|k: (Seq<char>, Seq<char>)| lengths_of(r.field_lengths@, k) == Seq::<usize>::empty(),
    {
        FieldLengthRecorder { field_lengths: Vec::new() }
    }

    /// Records a list of `len` items under `parent_type` and `field`.
    pub fn record(&mut self, parent_type: &str, field: &str, len: usize)
        requires
            old(self).wf(),
        ensures
            final(self).wf(),
            forall|k: (Seq<char>, Seq<char>)|
                #[trigger] lengths_of(final(self).field_lengths@, k) == if k == (parent_type@, field@) {
                    lengths_of(old(self).field_lengths@, k).push(len)
                } else {
                    lengths_of(old(self).field_lengths@, k)
                },
    {
        let t = String::from_str(parent_type);
        let f = String::from_str(field);
        let ghost key = (parent_type@, field@);
        let ghost before = self.field_lengths@;
        let mut found: Option<usize> = None;
        let mut i: usize = 0;
        while i < self.field_lengths.len()
            invariant
                i <= before.len(),
                key == (parent_type@, field@),
                self.field_lengths@ == before,
                t@ == parent_type@,
                f@ == field@,
                match found {
                    Some(j) => j < before.len() && entry_key(before[j as int]) == key,
                    None => forall|j: int| 0 <= j < i ==> entry_key(#[trigger] before[j]) != key,
                },
            decreases before.len() - i,
        {
            if found.is_none() && self.field_lengths[i].parent_type == t && self.field_lengths[i].field
                == f {
                found = Some(i);
            }
            i = i + 1;
        }
        if let Some(i) = found {
            proof {
                lemma_lengths_at(before, key, i as int);
            }
            let mut e = self.field_lengths.remove(i);
            e.lengths.push(len);
            self.field_lengths.insert(i, e);
            let ghost after = self.field_lengths@;
            assert(forall|j: int| 0 <= j < after.len() ==> entry_key(#[trigger] after[j]) == entry_key(before[j]));
            assert(forall|j: int| 0 <= j < after.len() && j != i ==> #[trigger] after[j] == before[j]);
            assert forall|k: (Seq<char>, Seq<char>)|
                #[trigger] lengths_of(after, k) == if k == key {
                    lengths_of(before, k).push(len)
                } else {
                    lengths_of(before, k)
                } by {
                lemma_lengths_at(after, key, i as int);
                if has_key(before, k) {
                    let j = choose|j: int| 0 <= j < before.len() && entry_key(#[trigger] before[j]) == k;
                    lemma_lengths_at(before, k, j);
                    lemma_lengths_at(after, k, j);
                } else if has_key(after, k) {
                    let j = choose|j: int| 0 <= j < after.len() && entry_key(#[trigger] after[j]) == k;
                    assert(entry_key(before[j]) == k);
                }
            }
        } else {
            let mut lengths: Vec<usize> = Vec::new();
            lengths.push(len);
            self.field_lengths.push(FieldLengths { parent_type: t, field: f, lengths });
            let ghost after = self.field_lengths@;
            assert forall|k: (Seq<char>, Seq<char>)|
                #[trigger] lengths_of(after, k) == if k == key {
                    lengths_of(before, k).push(len)
                } else {
                    lengths_of(before, k)
                } by {
                lemma_lengths_at(after, key, before.len() as int);
                assert(!has_key(before, key));
                assert(lengths_of(before, key) =~= Seq::<usize>::empty());
                assert(lengths_of(after, key) =~= Seq::<usize>::empty().push(len));
                if has_key(before, k) {
                    let j = choose|j: int| 0 <= j < before.len() && entry_key(#[trigger] before[j]) == k;
                    lemma_lengths_at(before, k, j);
                    assert(after[j] == before[j]);
                    lemma_lengths_at(after, k, j);
                } else if has_key(after, k) {
                    let j = choose|j: int| 0 <= j < after.len() && entry_key(#[trigger] after[j]) == k;
                    if j < before.len() {
                        assert(after[j] == before[j]);
                    }
                }
            }
        }
    }

    /// The lengths recorded under `parent_type` and `field`, oldest first.
    pub fn lengths(&self, parent_type: &str, field: &str) -> (r: Vec<usize>)
        requires
            self.wf(),
        ensures
            r@ == lengths_of(self.field_lengths@, (parent_type@, field@)),
    {
        let t = String::from_str(parent_type);
        let f = String::from_str(field);
        let mut i: usize = 0;
        while i < self.field_lengths.len()
            invariant
                self.wf(),
                i <= self.field_lengths@.len(),
                t@ == parent_type@,
                f@ == field@,
                forall|j: int| 0 <= j < i ==> entry_key(#[trigger] self.field_lengths@[j]) != (parent_type@, field@),
            decreases self.field_lengths@.len() - i,
        {
            if self.field_lengths[i].parent_type == t && self.field_lengths[i].field == f {
                proof {
                    lemma_lengths_at(self.field_lengths@, (parent_type@, field@), i as int);
                }
                return self.field_lengths[i].lengths.clone();
            }
            i = i + 1;
        }
        Vec::new()
    }
}

} // verus!
