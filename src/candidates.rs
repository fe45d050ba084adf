//! The variants of one candidate strand file, keyed by identifier.
use vstd::prelude::*;
use crate::records::{parse_strand_line, strand_line, LineError, ParseError, VariantEntry};
use crate::text::{chars_of, ends_with, has_suffix, same_chars};

verus! {

/// The variant recorded last under `key` in `entries`: a later record of an
/// identifier replaces the earlier ones.
pub open spec fn lookup(entries: Seq<(Seq<char>, VariantEntry)>, key: Seq<char>) -> Option<
    VariantEntry,
>
    decreases entries.len(),
{
    if entries.len() == 0 {
        None
    } else if entries.last().0 == key {
        Some(entries.last().1)
    } else {
        lookup(entries.drop_last(), key)
    }
}

/// The number of hash buckets of a `CandidateSet`.
const BUCKETS: usize = 65521;

/// The bucket of an identifier: a polynomial hash of its characters.
spec fn bucket_spec(s: Seq<char>) -> int
    decreases s.len(),
{
    if s.len() == 0 {
        0
    } else {
        (bucket_spec(s.drop_last()) * 31 + s.last() as u32) % (BUCKETS as int)
    }
}

fn bucket_of(name: &Vec<char>) -> (r: usize)
    ensures
        r == bucket_spec(name@),
        r < BUCKETS,
{
    let mut h: u64 = 0;
    let mut i: usize = 0;
    while i < name.len()
        invariant
            i <= name.len(),
            h == bucket_spec(name@.take(i as int)),
            h < BUCKETS,
        decreases name.len() - i,
    {
        assert(name@.take(i + 1).drop_last() =~= name@.take(i as int));
        h = (h * 31 + name[i] as u32 as u64) % (BUCKETS as u64);
        i = i + 1;
    }
    assert(name@.take(name.len() as int) =~= name@);
    h as usize
}

/// The entry recorded last under `key` is the one at `j`.
proof fn lemma_lookup_last(entries: Seq<(Seq<char>, VariantEntry)>, key: Seq<char>, j: int)
    requires
        0 <= j < entries.len(),
        entries[j].0 == key,
        forall|k: int| j < k < entries.len() ==> (#[trigger] entries[k]).0 != key,
    ensures
        lookup(entries, key) == Some(entries[j].1),
    decreases entries.len(),
{
    if j < entries.len() - 1 {
        lemma_lookup_last(entries.drop_last(), key, j);
    }
}

/// Nothing is recorded under a key that no entry has.
proof fn lemma_lookup_absent(entries: Seq<(Seq<char>, VariantEntry)>, key: Seq<char>)
    requires
        forall|k: int| 0 <= k < entries.len() ==> (#[trigger] entries[k]).0 != key,
    ensures
        lookup(entries, key) == None::<VariantEntry>,
    decreases entries.len(),
{
    if entries.len() > 0 {
        lemma_lookup_absent(entries.drop_last(), key);
    }
}

/// The variants of a strand file in the order they were read, each with its
/// identifier; looking an identifier up finds the last of them. An index of
/// hash buckets lists, for each bucket, the positions of the identifiers that
/// hash to it in increasing order.
pub struct CandidateSet {
    names: Vec<Vec<char>>,
    entries: Vec<VariantEntry>,
    buckets: Vec<Vec<usize>>,
}

impl View for CandidateSet {
    type V = Seq<(Seq<char>, VariantEntry)>;

    closed spec fn view(&self) -> Seq<(Seq<char>, VariantEntry)> {
        Seq::new(self.entries.len() as nat, |i: int| (self.names@[i]@, self.entries@[i]))
    }
}

impl CandidateSet {
    /// The vectors run in step, and the buckets index every position once.
    pub closed spec fn wf(&self) -> bool {
        &&& self.names.len() == self.entries.len()
        &&& self.buckets.len() == BUCKETS
        &&& forall|b: int, q: int|
            0 <= b < BUCKETS && 0 <= q < self.buckets@[b].len() ==> {
                &&& #[trigger] self.buckets@[b]@[q] < self.names.len()
                &&& bucket_spec(self.names@[self.buckets@[b]@[q] as int]@) == b
            }
        &&& forall|b: int, q1: int, q2: int|
            0 <= b < BUCKETS && 0 <= q1 < q2 < self.buckets@[b].len() ==> #[trigger] self.buckets@[b]@[q1]
                < #[trigger] self.buckets@[b]@[q2]
        &&& forall|i: int| 0 <= i < self.names.len() ==> #[trigger] self.indexed(i)
    }

    /// Position `i` is listed in the bucket of its identifier.
    closed spec fn indexed(&self, i: int) -> bool {
        exists|q: int|
            0 <= q < self.buckets@[bucket_spec(self.names@[i]@)].len()
                && self.buckets@[bucket_spec(self.names@[i]@)]@[q] == i
    }

    /// A set with no variants.
    pub fn new() -> (r: CandidateSet)
        ensures
            r.wf(),
            r@ == Seq::<(Seq<char>, VariantEntry)>::empty(),
    {
        let mut buckets: Vec<Vec<usize>> = Vec::new();
        let mut b: usize = 0;
        while b < BUCKETS
            invariant
                b <= BUCKETS,
                buckets.len() == b,
                forall|k: int| 0 <= k < b ==> (#[trigger] buckets@[k]).len() == 0,
            decreases BUCKETS - b,
        {
            buckets.push(Vec::new());
            b = b + 1;
        }
        let r = CandidateSet { names: Vec::new(), entries: Vec::new(), buckets };
        assert(r@ =~= Seq::<(Seq<char>, VariantEntry)>::empty());
        r
    }

    /// Records `entry` under the identifier `name`.
    pub fn insert(&mut self, name: Vec<char>, entry: VariantEntry)
        requires
            old(self).wf(),
        ensures
            final(self).wf(),
            final(self)@ == old(self)@.push((name@, entry)),
    {
        let ghost before = self@;
        let ghost old_buckets = self.buckets@;
        let ghost old_names = self.names@;
        let b = bucket_of(&name);
        let i = self.names.len();
        self.names.push(name);
        self.entries.push(entry);
        self.buckets[b].push(i);
        assert(self.buckets.len() == BUCKETS);
        assert(self.buckets@[b as int]@ == old_buckets[b as int]@.push(i));
        assert(self@ =~= before.push((name@, entry)));
        assert forall|c: int| 0 <= c < BUCKETS && c != b implies #[trigger] self.buckets@[c]
            == old_buckets[c] by {}
        assert forall|k: int| 0 <= k < i implies self.names@[k] == #[trigger] old_names[k] by {}
        assert forall|c: int, q: int|
            0 <= c < BUCKETS && 0 <= q < self.buckets@[c].len() implies {
                &&& #[trigger] self.buckets@[c]@[q] < self.names.len()
                &&& bucket_spec(self.names@[self.buckets@[c]@[q] as int]@) == c
            } by {
            if c != b || q < old_buckets[c].len() {
                assert(self.buckets@[c]@[q] == old_buckets[c]@[q]);
            }
        }
        assert forall|c: int, q1: int, q2: int|
            0 <= c < BUCKETS && 0 <= q1 < q2 < self.buckets@[c].len() implies #[trigger] self.buckets@[c]@[q1]
                < #[trigger] self.buckets@[c]@[q2] by {
            assert(self.buckets@[c]@[q1] == old_buckets[c]@[q1]);
            if c != b || q2 < old_buckets[c].len() {
                assert(self.buckets@[c]@[q2] == old_buckets[c]@[q2]);
            }
        }
        assert forall|k: int| 0 <= k < self.names.len() implies #[trigger] self.indexed(k) by {
            if k == i {
                let q = old_buckets[b as int].len() as int;
                assert(self.names@[k]@ == name@);
                assert(0 <= q < self.buckets@[b as int].len() && self.buckets@[b as int]@[q] == i);
            } else {
                assert(self.names@[k] == old_names[k]);
                let c = bucket_spec(old_names[k]@);
                assert(0 <= c < BUCKETS);
                assert(old(self).indexed(k));
                let q = choose|q: int|
                    0 <= q < old_buckets[c].len() && old_buckets[c]@[q] == k;
                if c == b {
                    assert(self.buckets@[c]@[q] == old_buckets[c]@[q]);
                } else {
                    assert(self.buckets@[c] == old_buckets[c]);
                }
                assert(0 <= q < self.buckets@[c].len() && self.buckets@[c]@[q] == k);
            }
        }
    }

    /// The variant recorded last under `key`, if any.
    pub fn get(&self, key: &Vec<char>) -> (r: Option<VariantEntry>)
        requires
            self.wf(),
        ensures
            r == lookup(self@, key@),
    {
        let b = bucket_of(key);
        let bucket = &self.buckets[b];
        let mut q: usize = bucket.len();
        while q > 0
            invariant
                self.wf(),
                b == bucket_spec(key@),
                b < BUCKETS,
                bucket == self.buckets@[b as int],
                q <= bucket.len(),
                forall|p: int| q <= p < bucket.len() ==> self.names@[#[trigger] bucket@[p] as int]@
                    != key@,
            decreases q,
        {
            q = q - 1;
            let j = bucket[q];
            assert(j < self.names.len() && bucket_spec(self.names@[j as int]@) == b);
            if same_chars(&self.names[j], key) {
                proof {
                    assert forall|k: int| j < k < self@.len() implies (#[trigger] self@[k]).0
                        != key@ by {
                        if self.names@[k]@ == key@ {
                            assert(self.indexed(k));
                            let p = choose|p: int|
                                0 <= p < bucket.len() && bucket@[p] == k;
                            if p <= q {
                                if p < q {
                                    assert(bucket@[p] < bucket@[q as int]);
                                }
                            }
                        }
                    }
                    lemma_lookup_last(self@, key@, j as int);
                }
                return Some(self.entries[j]);
            }
        }
        proof {
            assert forall|k: int| 0 <= k < self@.len() implies (#[trigger] self@[k]).0 != key@ by {
                if self.names@[k]@ == key@ {
                    assert(self.indexed(k));
                    let p = choose|p: int| 0 <= p < bucket.len() && bucket@[p] == k;
                }
            }
            lemma_lookup_absent(self@, key@);
        }
        None
    }
}

/// Reads the body of a strand file, one line per variant; the first line that
/// cannot be read fails the whole file.
pub fn parse_strand(lines: &Vec<String>) -> (r: Result<CandidateSet, ParseError>)
    ensures
        match r {
            Ok(c) => c.wf() && c@.len() == lines.len() && forall|i: int|
                0 <= i < lines.len() ==> strand_line(#[trigger] lines@[i]@) == Ok::<
                    (Seq<char>, VariantEntry),
                    LineError,
                >(c@[i]),
            Err(e) => e.line < lines.len() && strand_line(lines@[e.line as int]@) == Err::<
                (Seq<char>, VariantEntry),
                LineError,
            >(e.kind) && forall|i: int|
                0 <= i < e.line ==> strand_line(#[trigger] lines@[i]@) is Ok,
        },
{
    let mut out = CandidateSet::new();
    let mut i: usize = 0;
    while i < lines.len()
        invariant
            i <= lines.len(),
            out.wf(),
            out@.len() == i,
            forall|k: int|
                0 <= k < i ==> strand_line(#[trigger] lines@[k]@) == Ok::<
                    (Seq<char>, VariantEntry),
                    LineError,
                >(out@[k]),
        decreases lines.len() - i,
    {
        match parse_strand_line(lines[i].as_str()) {
            Ok((name, entry)) => out.insert(name, entry),
            Err(kind) => {
                return Err(ParseError { line: i, kind });
            },
        }
        i = i + 1;
    }
    Ok(out)
}

/// The ending of the name of a strand file.
pub open spec fn strand_suffix() -> Seq<char> {
    seq!['.', 's', 't', 'r', 'a', 'n', 'd']
}

/// The index of the first name that ends in `.strand`, if any.
pub fn find_strand_entry(names: &Vec<String>) -> (r: Option<usize>)
    ensures
        match r {
            Some(i) => i < names.len() && ends_with(names@[i as int]@, strand_suffix()) && forall|
                j: int,
            | 0 <= j < i ==> !ends_with(#[trigger] names@[j]@, strand_suffix()),
            None => forall|j: int|
                0 <= j < names.len() ==> !ends_with(#[trigger] names@[j]@, strand_suffix()),
        },
{
    let suffix: Vec<char> = vec!['.', 's', 't', 'r', 'a', 'n', 'd'];
    assert(suffix@ =~= strand_suffix());
    let mut i: usize = 0;
    while i < names.len()
        invariant
            i <= names.len(),
            suffix@ == strand_suffix(),
            forall|j: int| 0 <= j < i ==> !ends_with(#[trigger] names@[j]@, strand_suffix()),
        decreases names.len() - i,
    {
        if has_suffix(&chars_of(names[i].as_str()), &suffix) {
            return Some(i);
        }
        i = i + 1;
    }
    None
}

} // verus!
