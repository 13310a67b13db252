//! For a reference variant, what each other variant lacks and shares.
use vstd::prelude::*;

use crate::partition::{find_group, lemma_push_contains, IntermediateFields, PrefixGroup};
use crate::DEFAULT_PREFIX;

verus! {

/// The fields of `r` that `o` lacks, in the order of `r`.
pub open spec fn minus(r: Seq<usize>, o: Seq<usize>) -> Seq<usize>
    decreases r.len(),
{
    if r.len() == 0 {
        r
    } else if o.contains(r.last()) {
        minus(r.drop_last(), o)
    } else {
        minus(r.drop_last(), o).push(r.last())
    }
}

/// The fields of `r` that `o` has too, in the order of `r`.
pub open spec fn meet(r: Seq<usize>, o: Seq<usize>) -> Seq<usize>
    decreases r.len(),
{
    if r.len() == 0 {
        r
    } else if o.contains(r.last()) {
        meet(r.drop_last(), o).push(r.last())
    } else {
        meet(r.drop_last(), o)
    }
}

/// A variant to compare against: its prefix, and the fields that tell it
/// apart (a named variant's own group, or the common fields for the default
/// variant).
pub type Candidate = (Seq<char>, Seq<usize>);

/// The variants to compare against: every named variant, then the default one.
pub open spec fn candidates(im: IntermediateFields) -> Seq<Candidate> {
    group_views(im.prefix_excluded@).push((DEFAULT_PREFIX@, im.common_fields@))
}

/// Each group as a candidate.
pub open spec fn group_views(groups: Seq<PrefixGroup>) -> Seq<Candidate> {
    groups.map_values(|g: PrefixGroup| (g.prefix@, g.fields@))
}

/// One row of a difference: the other variant's prefix, the reference fields
/// it lacks, and the reference fields it has.
pub type Row = (Seq<char>, Seq<usize>, Seq<usize>);

/// The rows for `reference` against each candidate, in order, leaving out
/// the candidate named `current` and every candidate that lacks none of the
/// reference fields.
pub open spec fn differences(cands: Seq<Candidate>, current: Option<Seq<char>>, reference: Seq<usize>) -> Seq<Row>
    decreases cands.len(),
{
    if cands.len() == 0 {
        Seq::empty()
    } else {
        step(differences(cands.drop_last(), current, reference), cands.last(), current, reference)
    }
}

/// `rows` followed by the row for candidate `c`, if it gets one.
pub open spec fn step(rows: Seq<Row>, c: Candidate, current: Option<Seq<char>>, reference: Seq<usize>) -> Seq<Row> {
    if current == Some(c.0) || minus(reference, c.1).len() == 0 {
        rows
    } else {
        rows.push((c.0, minus(reference, c.1), meet(reference, c.1)))
    }
}

/// What a conversion from the variant `other` needs: the reference fields
/// that `other` lacks (`unique`) and those it has (`shared`).
pub struct Difference {
    pub other: String,
    pub unique: Vec<usize>,
    pub shared: Vec<usize>,
}

impl View for Difference {
    type V = Row;

    open spec fn view(&self) -> Row {
        (self.other@, self.unique@, self.shared@)
    }
}

/// Each difference as a row.
pub open spec fn rows(v: Seq<Difference>) -> Seq<Row> {
    v.map_values(|d: Difference| d@)
}

/// Whether `v` holds `x`.
pub fn contains_id(v: &Vec<usize>, x: usize) -> (r: bool)
    ensures
        r == v@.contains(x),
{
    let mut k: usize = 0;
    while k < v.len()
        invariant
            k <= v@.len(),
            forall|j: int| 0 <= j < k ==> v@[j] != x,
        decreases v@.len() - k,
    {
        if v[k] == x {
            assert(v@[k as int] == x);
            return true;
        }
        k = k + 1;
    }
    false
}

/// Splits `current` into the fields that `other` lacks and those it has.
pub fn split_fields(current: &Vec<usize>, other: &Vec<usize>) -> (r: (Vec<usize>, Vec<usize>))
    ensures
        r.0@ == minus(current@, other@),
        r.1@ == meet(current@, other@),
{
    let mut unique: Vec<usize> = Vec::new();
    let mut shared: Vec<usize> = Vec::new();
    let n = current.len();
    let mut k: usize = 0;
    assert(current@.subrange(0, 0) =~= Seq::<usize>::empty());
    while k < n
        invariant
            n == current@.len(),
            k <= n,
            unique@ == minus(current@.subrange(0, k as int), other@),
            shared@ == meet(current@.subrange(0, k as int), other@),
        decreases n - k,
    {
        let ghost next = current@.subrange(0, k + 1);
        assert(next.drop_last() =~= current@.subrange(0, k as int));
        assert(next.last() == current@[k as int]);
        let x = current[k];
        if contains_id(other, x) {
            shared.push(x);
        } else {
            unique.push(x);
        }
        k = k + 1;
    }
    assert(current@.subrange(0, n as int) =~= current@);
    (unique, shared)
}

impl IntermediateFields {
    /// The differences of the named variant `current_prefix` against every
    /// other variant that lacks some of its own fields.
    pub fn field_differences(&self, current_prefix: &String) -> (r: Vec<Difference>)
        requires
            self.wf(),
            exists|k: int| 0 <= k < self.prefix_excluded@.len()
                && (#[trigger] self.prefix_excluded@[k]).prefix@ == current_prefix@,
        ensures
            forall|k: int| 0 <= k < self.prefix_excluded@.len()
                && (#[trigger] self.prefix_excluded@[k]).prefix@ == current_prefix@
                ==> rows(r@) == differences(
                    candidates(*self),
                    Some(current_prefix@),
                    self.prefix_excluded@[k].fields@,
                ),
    {
        match find_group(&self.prefix_excluded, current_prefix) {
            Some(k) => self.field_differences_inner(Some(current_prefix), &self.prefix_excluded[k].fields),
            None => {
                assert(false);
                Vec::new()
            },
        }
    }

    /// The differences of the full struct, whose extra fields are those
    /// excluded at least once, against every reduced variant.
    pub fn field_differences_full(&self) -> (r: Vec<Difference>)
        ensures
            rows(r@) == differences(candidates(*self), None, self.excluded_at_least_once@),
    {
        self.field_differences_inner(None, &self.excluded_at_least_once)
    }

    /// The rows of `differences` for the reference fields `current_fields`.
    pub fn field_differences_inner(&self, current_prefix: Option<&String>, current_fields: &Vec<usize>) -> (r: Vec<Difference>)
        ensures
            rows(r@) == differences(candidates(*self), opt_ref_view(current_prefix), current_fields@),
    {
        let ghost cur = opt_ref_view(current_prefix);
        let ghost cands = candidates(*self);
        let groups = &self.prefix_excluded;
        let glen = groups.len();
        let mut out: Vec<Difference> = Vec::new();
        let mut k: usize = 0;
        assert(cands.subrange(0, 0) =~= Seq::<Candidate>::empty());
        assert(rows(out@) =~= Seq::<Row>::empty());
        while k < glen
            invariant
                glen == groups@.len(),
                groups == &self.prefix_excluded,
                cands == candidates(*self),
                cands.len() == glen + 1,
                k <= glen,
                cur == opt_ref_view(current_prefix),
                rows(out@) == differences(cands.subrange(0, k as int), cur, current_fields@),
            decreases glen - k,
        {
            let ghost next = cands.subrange(0, k + 1);
            assert(next.drop_last() =~= cands.subrange(0, k as int));
            assert(cands[k as int] == (groups@[k as int].prefix@, groups@[k as int].fields@));
            push_row(&mut out, current_prefix, current_fields, &groups[k].prefix, &groups[k].fields);
            k = k + 1;
        }
        let default_name = String::from_str(DEFAULT_PREFIX);
        assert(cands.drop_last() =~= cands.subrange(0, glen as int));
        push_row(&mut out, current_prefix, current_fields, &default_name, &self.common_fields);
        out
    }
}

/// The characters of an optional prefix.
pub open spec fn opt_ref_view(o: Option<&String>) -> Option<Seq<char>> {
    match o {
        Some(p) => Some(p@),
        None => None,
    }
}

/// Appends the row for the candidate `(name, others)`, unless it is the one
/// named `current_prefix` or lacks none of `current_fields`.
fn push_row(
    out: &mut Vec<Difference>,
    current_prefix: Option<&String>,
    current_fields: &Vec<usize>,
    name: &String,
    others: &Vec<usize>,
)
    ensures
        rows(final(out)@) == step(rows(old(out)@), (name@, others@), opt_ref_view(current_prefix), current_fields@),
{
    let skip = match current_prefix {
        Some(c) => *c == *name,
        None => false,
    };
    if !skip {
        let (unique, shared) = split_fields(current_fields, others);
        if unique.len() > 0 {
            let ghost before = rows(out@);
            let d = Difference { other: name.clone(), unique, shared };
            out.push(d);
            assert(rows(out@) =~= before.push(d@));
        }
    }
}

/// `minus` keeps exactly the fields of `r` missing from `o`.
pub(crate) proof fn lemma_minus_contains(r: Seq<usize>, o: Seq<usize>, x: usize)
    ensures
        minus(r, o).contains(x) == (r.contains(x) && !o.contains(x)),
    decreases r.len(),
{
    if r.len() > 0 {
        lemma_minus_contains(r.drop_last(), o, x);
        lemma_push_contains(r.drop_last(), r.last(), x);
        lemma_push_contains(minus(r.drop_last(), o), r.last(), x);
        assert(r.drop_last().push(r.last()) =~= r);
    }
}

/// `meet` keeps exactly the fields of `r` present in `o`.
pub(crate) proof fn lemma_meet_contains(r: Seq<usize>, o: Seq<usize>, x: usize)
    ensures
        meet(r, o).contains(x) == (r.contains(x) && o.contains(x)),
    decreases r.len(),
{
    if r.len() > 0 {
        lemma_meet_contains(r.drop_last(), o, x);
        lemma_push_contains(r.drop_last(), r.last(), x);
        lemma_push_contains(meet(r.drop_last(), o), r.last(), x);
        assert(r.drop_last().push(r.last()) =~= r);
    }
}

} // verus!
