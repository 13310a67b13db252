//! Grouping a struct's fields by the variants they belong to.
use vstd::prelude::*;

use crate::attrs::{classify, field_status, strip, strip_attr, Classified, Field, FieldStatus};
use crate::error::{ExcludeProblem, ExpandError};

verus! {

/// The fields of one named variant, by position in the declaration.
pub struct PrefixGroup {
    pub prefix: String,
    pub fields: Vec<usize>,
}

/// A struct's fields grouped by their status. Fields are identified by their
/// position in the declaration; `fields` holds them all, in order, those
/// bound for a named variant with their exclusion marker stripped.
pub struct IntermediateFields {
    pub fields: Vec<Field>,
    /// Fields in every variant.
    pub common_fields: Vec<usize>,
    /// Fields missing from at least one variant.
    pub excluded_at_least_once: Vec<usize>,
    /// One group per prefix, in order of first use, each prefix once.
    pub prefix_excluded: Vec<PrefixGroup>,
}

/// The classification of a field by its attributes.
pub open spec fn status_of(f: Field) -> Classified {
    classify(f.attrs@)
}

/// Whether no field carries a malformed exclusion marker.
pub open spec fn well_classified(fs: Seq<Field>) -> bool {
    forall|i: int| 0 <= i < fs.len() ==> !(status_of(#[trigger] fs[i]) is Malformed)
}

/// The positions of the fields that every variant has.
pub open spec fn common_ids(fs: Seq<Field>) -> Seq<usize>
    decreases fs.len(),
{
    if fs.len() == 0 {
        Seq::empty()
    } else if status_of(fs.last()) is Included {
        common_ids(fs.drop_last()).push((fs.len() - 1) as usize)
    } else {
        common_ids(fs.drop_last())
    }
}

/// The positions of the fields that some reduced variant lacks.
pub open spec fn excluded_ids(fs: Seq<Field>) -> Seq<usize>
    decreases fs.len(),
{
    if fs.len() == 0 {
        Seq::empty()
    } else if status_of(fs.last()) is Included {
        excluded_ids(fs.drop_last())
    } else {
        excluded_ids(fs.drop_last()).push((fs.len() - 1) as usize)
    }
}

/// The positions of the fields bound for the variant named `p`.
pub open spec fn group_ids(fs: Seq<Field>, p: Seq<char>) -> Seq<usize>
    decreases fs.len(),
{
    if fs.len() == 0 {
        Seq::empty()
    } else if status_of(fs.last()) == Classified::Prefixed(p) {
        group_ids(fs.drop_last(), p).push((fs.len() - 1) as usize)
    } else {
        group_ids(fs.drop_last(), p)
    }
}

/// The prefixes in use, each once, in order of first use.
pub open spec fn prefixes(fs: Seq<Field>) -> Seq<Seq<char>>
    decreases fs.len(),
{
    if fs.len() == 0 {
        Seq::empty()
    } else {
        match status_of(fs.last()) {
            Classified::Prefixed(p) => if prefixes(fs.drop_last()).contains(p) {
                prefixes(fs.drop_last())
            } else {
                prefixes(fs.drop_last()).push(p)
            },
            _ => prefixes(fs.drop_last()),
        }
    }
}

/// How a field is kept: a field bound for a named variant loses its
/// exclusion marker, any other keeps its attributes.
pub open spec fn stored_as(out: Field, orig: Field) -> bool {
    &&& out.name == orig.name
    &&& out.attrs@ == if status_of(orig) is Prefixed {
        strip(orig.attrs@)
    } else {
        orig.attrs@
    }
}

/// `groups` are the named groups of the fields `fs`, in order.
pub open spec fn groups_of(groups: Seq<PrefixGroup>, fs: Seq<Field>) -> bool {
    &&& groups.len() == prefixes(fs).len()
    &&& forall|k: int| 0 <= k < groups.len() ==> (#[trigger] groups[k]).prefix@ == prefixes(fs)[k]
        && groups[k].fields@ == group_ids(fs, prefixes(fs)[k])
}

/// No prefix names two groups.
pub open spec fn unique_prefixes(groups: Seq<PrefixGroup>) -> bool {
    forall|a: int, b: int|
        0 <= a < groups.len() && 0 <= b < groups.len() && a != b
            ==> (#[trigger] groups[a]).prefix@ != (#[trigger] groups[b]).prefix@
}

impl IntermediateFields {
    /// Each prefix names one group.
    pub open spec fn wf(&self) -> bool {
        unique_prefixes(self.prefix_excluded@)
    }
}

/// `im` is the grouping of the fields `fs`.
pub open spec fn partition_of(im: IntermediateFields, fs: Seq<Field>) -> bool {
    &&& im.fields@.len() == fs.len()
    &&& forall|i: int| 0 <= i < fs.len() ==> stored_as(#[trigger] im.fields@[i], fs[i])
    &&& im.common_fields@ == common_ids(fs)
    &&& im.excluded_at_least_once@ == excluded_ids(fs)
    &&& groups_of(im.prefix_excluded@, fs)
    &&& im.wf()
}

/// `e` reports the first field whose exclusion marker is malformed.
pub open spec fn first_malformed(fs: Seq<Field>, e: ExpandError) -> bool {
    exists|i: int, p: ExcludeProblem|
        0 <= i < fs.len()
        && (forall|j: int| 0 <= j < i ==> !(status_of(#[trigger] fs[j]) is Malformed))
        && status_of(fs[i]) == Classified::Malformed(p)
        && e == (ExpandError::MalformedExclude { field: i as usize, problem: p })
}

/// The position of the group with prefix `p`, if there is one.
pub(crate) fn find_group(groups: &Vec<PrefixGroup>, p: &String) -> (r: Option<usize>)
    ensures
        match r {
            Some(k) => k < groups@.len() && groups@[k as int].prefix@ == p@,
            None => forall|k: int| 0 <= k < groups@.len() ==> (#[trigger] groups@[k]).prefix@ != p@,
        },
{
    let mut k: usize = 0;
    while k < groups.len()
        invariant
            k <= groups@.len(),
            forall|j: int| 0 <= j < k ==> (#[trigger] groups@[j]).prefix@ != p@,
        decreases groups@.len() - k,
    {
        if groups[k].prefix == *p {
            return Some(k);
        }
        k = k + 1;
    }
    None
}

/// Classifies every field and groups them (see `partition_of`). Fails on the
/// first field whose exclusion marker is malformed.
pub fn extract_intermediates(fields: Vec<Field>) -> (r: Result<IntermediateFields, ExpandError>)
    ensures
        r is Ok ==> well_classified(fields@) && partition_of(r->Ok_0, fields@),
        r is Err ==> first_malformed(fields@, r->Err_0),
{
    let ghost fs = fields@;
    let mut rest = fields;
    let n = rest.len();
    let mut out: Vec<Field> = Vec::new();
    let mut common: Vec<usize> = Vec::new();
    let mut excluded: Vec<usize> = Vec::new();
    let mut groups: Vec<PrefixGroup> = Vec::new();
    let mut i: usize = 0;
    assert(fs.subrange(0, 0) =~= Seq::<Field>::empty());
    assert(fs.subrange(0, n as int) =~= fs);
    while i < n
        invariant
            fs == fields@,
            n == fs.len(),
            i <= n,
            rest@ == fs.subrange(i as int, n as int),
            out@.len() == i,
            forall|j: int| 0 <= j < i ==> stored_as(#[trigger] out@[j], fs[j]),
            forall|j: int| 0 <= j < i ==> !(status_of(#[trigger] fs[j]) is Malformed),
            common@ == common_ids(fs.subrange(0, i as int)),
            excluded@ == excluded_ids(fs.subrange(0, i as int)),
            groups_of(groups@, fs.subrange(0, i as int)),
            unique_prefixes(groups@),
        decreases n - i,
    {
        let ghost done = fs.subrange(0, i as int);
        let ghost next = fs.subrange(0, i + 1);
        assert(next.drop_last() =~= done);
        assert(next.last() == fs[i as int]);
        let f = rest.remove(0);
        assert(rest@ =~= fs.subrange(i + 1, n as int));
        match field_status(&f) {
            Err(p) => {
                let e = ExpandError::MalformedExclude { field: i, problem: p };
                assert(first_malformed(fs, e)) by {
                    assert(status_of(fs[i as int]) == Classified::Malformed(p));
                    assert(i as int as usize == i);
                }
                return Err(e);
            },
            Ok(FieldStatus::Included) => {
                common.push(i);
                out.push(f);
                proof { lemma_groups_unchanged(groups@, fs, i as int); }
            },
            Ok(FieldStatus::Excluded) => {
                excluded.push(i);
                out.push(f);
                proof { lemma_groups_unchanged(groups@, fs, i as int); }
            },
            Ok(FieldStatus::ExcludedWithPrefix(p)) => {
                excluded.push(i);
                let Field { name, attrs } = f;
                out.push(Field { name, attrs: strip_attr(attrs) });
                match find_group(&groups, &p) {
                    Some(k) => {
                        let ghost old_groups = groups@;
                        let mut g = groups.remove(k);
                        g.fields.push(i);
                        groups.insert(k, g);
                        proof {
                            assert(prefixes(done)[k as int] == p@);
                            assert(prefixes(next) == prefixes(done));
                            assert forall|j: int| 0 <= j < groups@.len() implies (#[trigger] groups@[j]).prefix@
                                == prefixes(next)[j] && groups@[j].fields@ == group_ids(next, prefixes(next)[j]) by {
                                if j != k {
                                    assert(groups@[j] == old_groups[j]);
                                    assert(old_groups[j].prefix@ != old_groups[k as int].prefix@);
                                } else {
                                    assert(groups@[j].fields@ =~= old_groups[j].fields@.push(i));
                                }
                            }
                        }
                    },
                    None => {
                        let mut ids: Vec<usize> = Vec::new();
                        ids.push(i);
                        let ghost old_groups = groups@;
                        groups.push(PrefixGroup { prefix: p, fields: ids });
                        proof {
                            assert(!prefixes(done).contains(p@)) by {
                                if prefixes(done).contains(p@) {
                                    let j = choose|j: int| 0 <= j < prefixes(done).len() && prefixes(done)[j] == p@;
                                    assert(old_groups[j].prefix@ == p@);
                                }
                            }
                            assert(prefixes(next) == prefixes(done).push(p@));
                            lemma_group_absent(done, p@);
                            assert forall|j: int| 0 <= j < groups@.len() implies (#[trigger] groups@[j]).prefix@
                                == prefixes(next)[j] && groups@[j].fields@ == group_ids(next, prefixes(next)[j]) by {
                                if j < old_groups.len() {
                                    assert(groups@[j] == old_groups[j]);
                                    assert(old_groups[j].prefix@ != p@);
                                } else {
                                    assert(groups@[j].fields@ =~= seq![i]);
                                }
                            }
                        }
                    },
                }
            },
        }
        i = i + 1;
    }
    assert(fs.subrange(0, n as int) =~= fs);
    Ok(IntermediateFields {
        fields: out,
        common_fields: common,
        excluded_at_least_once: excluded,
        prefix_excluded: groups,
    })
}

/// A field that joins no named variant leaves every group as it was.
proof fn lemma_groups_unchanged(groups: Seq<PrefixGroup>, fs: Seq<Field>, i: int)
    requires
        0 <= i < fs.len(),
        !(status_of(fs[i]) is Prefixed),
        groups_of(groups, fs.subrange(0, i)),
    ensures
        groups_of(groups, fs.subrange(0, i + 1)),
{
    let done = fs.subrange(0, i);
    let next = fs.subrange(0, i + 1);
    assert(next.drop_last() =~= done);
    assert(prefixes(next) == prefixes(done));
    assert forall|k: int| 0 <= k < groups.len() implies (#[trigger] groups[k]).prefix@ == prefixes(next)[k]
        && groups[k].fields@ == group_ids(next, prefixes(next)[k]) by {
        assert(group_ids(next, prefixes(next)[k]) == group_ids(done, prefixes(next)[k]));
    }
}

/// A prefix that is not in use has no fields.
proof fn lemma_group_absent(fs: Seq<Field>, p: Seq<char>)
    requires
        !prefixes(fs).contains(p),
    ensures
        group_ids(fs, p) == Seq::<usize>::empty(),
    decreases fs.len(),
{
    if fs.len() > 0 {
        let prev = prefixes(fs.drop_last());
        assert(!prev.contains(p)) by {
            if prev.contains(p) {
                let j = choose|j: int| 0 <= j < prev.len() && prev[j] == p;
                assert(prefixes(fs)[j] == p);
            }
        }
        if status_of(fs.last()) == Classified::Prefixed(p) {
            if !prev.contains(p) {
                assert(prefixes(fs) == prev.push(p));
                assert(prefixes(fs)[prev.len() as int] == p);
            }
        }
        lemma_group_absent(fs.drop_last(), p);
    }
}

/// What a pushed sequence contains.
pub(crate) proof fn lemma_push_contains(s: Seq<usize>, x: usize, y: usize)
    ensures
        s.push(x).contains(y) == (s.contains(y) || x == y),
{
    if s.contains(y) {
        let j = choose|j: int| 0 <= j < s.len() && s[j] == y;
        assert(s.push(x)[j] == y);
    }
    if x == y {
        assert(s.push(x)[s.len() as int] == y);
    }
    if s.push(x).contains(y) {
        let j = choose|j: int| 0 <= j < s.push(x).len() && s.push(x)[j] == y;
        if j < s.len() {
            assert(s[j] == y);
        }
    }
}

/// Every field is either common to all variants or excluded from at least
/// one, and never both.
pub proof fn lemma_common_and_excluded_partition(fs: Seq<Field>)
    requires
        fs.len() <= usize::MAX,
    ensures
        forall|i: usize| (i < fs.len()) == (#[trigger] common_ids(fs).contains(i) || excluded_ids(fs).contains(i)),
        forall|i: usize| !(#[trigger] common_ids(fs).contains(i) && excluded_ids(fs).contains(i)),
    decreases fs.len(),
{
    if fs.len() > 0 {
        let prev = fs.drop_last();
        let last = (fs.len() - 1) as usize;
        lemma_common_and_excluded_partition(prev);
        assert forall|i: usize| (i < fs.len()) == (#[trigger] common_ids(fs).contains(i) || excluded_ids(fs).contains(i))
            && !(common_ids(fs).contains(i) && excluded_ids(fs).contains(i)) by {
            lemma_push_contains(common_ids(prev), last, i);
            lemma_push_contains(excluded_ids(prev), last, i);
        }
    }
}

/// Every field of a named variant's group is excluded from at least one
/// variant.
pub proof fn lemma_groups_within_excluded(fs: Seq<Field>, p: Seq<char>)
    requires
        fs.len() <= usize::MAX,
    ensures
        forall|i: usize| #[trigger] group_ids(fs, p).contains(i) ==> excluded_ids(fs).contains(i),
    decreases fs.len(),
{
    if fs.len() > 0 {
        let prev = fs.drop_last();
        let last = (fs.len() - 1) as usize;
        lemma_groups_within_excluded(prev, p);
        assert forall|i: usize| #[trigger] group_ids(fs, p).contains(i) implies excluded_ids(fs).contains(i) by {
            lemma_push_contains(group_ids(prev, p), last, i);
            lemma_push_contains(excluded_ids(prev), last, i);
        }
    }
}

} // verus!
