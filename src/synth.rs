//! The generated items: reduced variant structs and conversion functions.
use vstd::prelude::*;

use crate::attrs::{extract_items, extract_table_name_attr, list_items, opt_view, table_name_from, views, Attr, Field};
use crate::difference::{
    candidates, differences, group_views, lemma_meet_contains, lemma_minus_contains, meet, minus, rows, Candidate,
    Difference, Row,
};
use crate::error::ExpandError;
use crate::partition::{
    common_ids, excluded_ids, extract_intermediates, first_malformed, group_ids, groups_of,
    lemma_common_and_excluded_partition, lemma_groups_within_excluded, prefixes, stored_as, well_classified,
    IntermediateFields, PrefixGroup,
};
use crate::{DEFAULT_PREFIX, DERIVE};

verus! {

/// Leading part of every conversion function's name.
pub const FROM_PREFIX: &'static str = "from_";

/// The snake-case form of an identifier, as heck computes it.
pub uninterp spec fn snake_of(s: Seq<char>) -> Seq<char>;

/// Relies on heck's `SnakeCase::to_snake_case` for `str`: its result depends
/// on the characters of `s` alone.
#[verifier::external_body]
fn to_snake_case(s: &str) -> (r: String)
    ensures
        r@ == snake_of(s@),
{
    heck::SnakeCase::to_snake_case(s)
}

/// The name of the conversion function from a variant whose name in snake
/// case is `variant_snake`.
pub fn from_fn_name(variant_snake: &str) -> (r: String)
    ensures
        r@ == FROM_PREFIX@ + variant_snake@,
{
    String::from_str(FROM_PREFIX).concat(variant_snake)
}

/// The name of the conversion function from the variant named `variant`.
pub fn conversion_fn_name(variant: &String) -> (r: String)
    ensures
        r@ == FROM_PREFIX@ + snake_of(variant@),
{
    let snake = to_snake_case(variant.as_str());
    from_fn_name(snake.as_str())
}

/// The name of a variant: its prefix followed by the full struct's name.
pub fn variant_name(prefix: &String, base_name: &String) -> (r: String)
    ensures
        r@ == prefix@ + base_name@,
{
    prefix.clone().concat(base_name.as_str())
}

/// A generated struct: its name and its fields, by position in the
/// declaration.
pub struct VariantStruct {
    pub name: String,
    pub fields: Vec<usize>,
}

/// A generated conversion function `name(params.., base: source) -> target`.
/// The result lists the parameters first, then the `copied` fields read from
/// `base`.
pub struct FromFn {
    pub name: String,
    pub source: String,
    pub params: Vec<usize>,
    pub copied: Vec<usize>,
}

/// The conversion functions into one target, in one `impl` block.
pub struct FromImpl {
    pub target: String,
    pub fns: Vec<FromFn>,
}

/// The body of the annotated declaration.
pub enum Body {
    Struct(Vec<Field>),
    Enum,
}

/// An annotated declaration as the front end hands it over.
pub struct Declaration {
    pub name: String,
    pub attrs: Vec<Attr>,
    pub body: Body,
}

/// Everything generated for one declaration. `fields` are the declaration's
/// fields, those of named variants without their exclusion marker; the
/// other items refer to them by position.
pub struct Expansion {
    pub derives: Vec<String>,
    pub table_name: Option<String>,
    pub fields: Vec<Field>,
    pub structs: Vec<VariantStruct>,
    pub impls: Vec<FromImpl>,
}

/// `f` converts from the variant of `row` into the target: it takes the
/// fields that variant lacks, and copies the common fields and the shared
/// ones from it.
pub open spec fn fn_matches(f: FromFn, row: Row, base: Seq<char>, common: Seq<usize>) -> bool {
    &&& f.source@ == row.0 + base
    &&& f.name@ == FROM_PREFIX@ + snake_of(row.0 + base)
    &&& f.params@ == row.1
    &&& f.copied@ == common + row.2
}

/// `i` holds one conversion function into `target` per row, in order.
pub open spec fn impl_matches(i: FromImpl, target: Seq<char>, rows: Seq<Row>, base: Seq<char>, common: Seq<usize>) -> bool {
    &&& i.target@ == target
    &&& i.fns@.len() == rows.len()
    &&& forall|j: int| 0 <= j < rows.len() ==> fn_matches(#[trigger] i.fns@[j], rows[j], base, common)
}

/// The generated structs and impls for the full struct `base`, with the
/// given common fields, excluded fields and named groups: first the default
/// variant and the impl into the full struct, then one variant and one impl
/// per group.
pub open spec fn plan_matches(
    structs: Seq<VariantStruct>,
    impls: Seq<FromImpl>,
    base: Seq<char>,
    common: Seq<usize>,
    excluded: Seq<usize>,
    groups: Seq<Candidate>,
) -> bool {
    let cands = groups.push((DEFAULT_PREFIX@, common));
    &&& structs.len() == groups.len() + 1
    &&& impls.len() == groups.len() + 1
    &&& structs[0].name@ == DEFAULT_PREFIX@ + base
    &&& structs[0].fields@ == common
    &&& impl_matches(impls[0], base, differences(cands, None, excluded), base, common)
    &&& forall|k: int| 0 <= k < groups.len() ==> {
        &&& (#[trigger] structs[k + 1]).name@ == groups[k].0 + base
        &&& structs[k + 1].fields@ == groups[k].1 + common
        &&& impl_matches(impls[k + 1], groups[k].0 + base, differences(cands, Some(groups[k].0), groups[k].1), base, common)
    }
}

/// `a` followed by `b`.
pub fn concat_ids(a: &Vec<usize>, b: &Vec<usize>) -> (r: Vec<usize>)
    ensures
        r@ == a@ + b@,
{
    let mut out: Vec<usize> = Vec::new();
    let mut k: usize = 0;
    while k < a.len()
        invariant
            k <= a@.len(),
            out@ == a@.subrange(0, k as int),
        decreases a@.len() - k,
    {
        out.push(a[k]);
        assert(out@ =~= a@.subrange(0, k + 1));
        k = k + 1;
    }
    let mut k: usize = 0;
    while k < b.len()
        invariant
            k <= b@.len(),
            out@ == a@ + b@.subrange(0, k as int),
        decreases b@.len() - k,
    {
        out.push(b[k]);
        assert(out@ =~= a@ + b@.subrange(0, k + 1));
        k = k + 1;
    }
    assert(b@.subrange(0, b@.len() as int) =~= b@);
    out
}

/// One conversion function into `this_name` per difference.
pub fn add_from_impls(this_name: &String, base_name: &String, common: &Vec<usize>, diffs: Vec<Difference>) -> (r: FromImpl)
    ensures
        impl_matches(r, this_name@, rows(diffs@), base_name@, common@),
{
    let ghost ds = rows(diffs@);
    let mut rest = diffs;
    let n = rest.len();
    let mut fns: Vec<FromFn> = Vec::new();
    let mut k: usize = 0;
    while k < n
        invariant
            n == ds.len(),
            k <= n,
            rows(rest@) == ds.subrange(k as int, n as int),
            rest@.len() == n - k,
            fns@.len() == k,
            forall|j: int| 0 <= j < k ==> fn_matches(#[trigger] fns@[j], ds[j], base_name@, common@),
        decreases n - k,
    {
        let ghost old_rest = rest@;
        let d = rest.remove(0);
        assert(d@ == ds[k as int]) by {
            assert(rows(old_rest)[0] == old_rest[0]@);
            assert(ds.subrange(k as int, n as int)[0] == ds[k as int]);
        }
        assert(rows(rest@) =~= ds.subrange(k + 1, n as int)) by {
            assert(ds.subrange(k + 1, n as int) =~= ds.subrange(k as int, n as int).drop_first());
            assert(rest@ =~= old_rest.drop_first());
            assert(rows(rest@) =~= rows(old_rest).drop_first());
        }
        let Difference { other, unique, shared } = d;
        let source = variant_name(&other, base_name);
        let name = conversion_fn_name(&source);
        let copied = concat_ids(common, &shared);
        fns.push(FromFn { name, source, params: unique, copied });
        k = k + 1;
    }
    FromImpl { target: this_name.clone(), fns }
}

/// The variant structs and conversion impls for the full struct
/// `base_name` (see `plan_matches`).
pub fn build_items(base_name: &String, im: &IntermediateFields) -> (r: (Vec<VariantStruct>, Vec<FromImpl>))
    requires
        im.wf(),
    ensures
        plan_matches(
            r.0@,
            r.1@,
            base_name@,
            im.common_fields@,
            im.excluded_at_least_once@,
            group_views(im.prefix_excluded@),
        ),
{
    let ghost gs = group_views(im.prefix_excluded@);
    let ghost cands = candidates(*im);
    let common = &im.common_fields;
    let mut structs: Vec<VariantStruct> = Vec::new();
    let mut impls: Vec<FromImpl> = Vec::new();

    let full = add_from_impls(base_name, base_name, common, im.field_differences_full());
    impls.push(full);
    let default_prefix = String::from_str(DEFAULT_PREFIX);
    structs.push(VariantStruct { name: variant_name(&default_prefix, base_name), fields: concat_ids(common, &Vec::new()) });
    assert(structs@[0].fields@ =~= common@);

    let groups = &im.prefix_excluded;
    let n = groups.len();
    let mut k: usize = 0;
    while k < n
        invariant
            n == groups@.len(),
            groups == &im.prefix_excluded,
            common == &im.common_fields,
            im.wf(),
            gs == group_views(im.prefix_excluded@),
            cands == candidates(*im),
            cands == gs.push((DEFAULT_PREFIX@, common@)),
            k <= n,
            structs@.len() == k + 1,
            impls@.len() == k + 1,
            structs@[0].name@ == DEFAULT_PREFIX@ + base_name@,
            structs@[0].fields@ == common@,
            impl_matches(impls@[0], base_name@, differences(cands, None, im.excluded_at_least_once@), base_name@, common@),
            forall|j: int| 0 <= j < k ==> {
                &&& (#[trigger] structs@[j + 1]).name@ == gs[j].0 + base_name@
                &&& structs@[j + 1].fields@ == gs[j].1 + common@
                &&& impl_matches(impls@[j + 1], gs[j].0 + base_name@, differences(cands, Some(gs[j].0), gs[j].1), base_name@, common@)
            },
        decreases n - k,
    {
        let g = &groups[k];
        assert(gs[k as int] == (g.prefix@, g.fields@));
        let this_name = variant_name(&g.prefix, base_name);
        let fields = concat_ids(&g.fields, common);
        let diffs = im.field_differences(&g.prefix);
        let imp = add_from_impls(&this_name, base_name, common, diffs);
        structs.push(VariantStruct { name: this_name, fields });
        impls.push(imp);
        k = k + 1;
    }
    (structs, impls)
}

/// The named variants of the fields `fs`: each prefix in order of first
/// use, with its fields.
pub open spec fn variant_groups(fs: Seq<Field>) -> Seq<Candidate> {
    prefixes(fs).map_values(|p: Seq<char>| (p, group_ids(fs, p)))
}

/// `e` is what the full struct `base` with fields `fs` expands to, with the
/// given derive list and table name.
pub open spec fn expansion_of(
    e: Expansion,
    base: Seq<char>,
    derives: Seq<Seq<char>>,
    table: Option<Seq<char>>,
    fs: Seq<Field>,
) -> bool {
    &&& views(e.derives@) == derives
    &&& opt_view(e.table_name) == table
    &&& e.fields@.len() == fs.len()
    &&& forall|i: int| 0 <= i < fs.len() ==> stored_as(#[trigger] e.fields@[i], fs[i])
    &&& plan_matches(e.structs@, e.impls@, base, common_ids(fs), excluded_ids(fs), variant_groups(fs))
}

/// The outcome of expanding `d`: checks run in order (a struct, the derive
/// list, the table name, the fields' markers), and the first that fails
/// decides the error.
pub open spec fn expansion_result(d: Declaration, r: Result<Expansion, ExpandError>) -> bool {
    match d.body {
        Body::Enum => r == Err::<Expansion, ExpandError>(ExpandError::NotAStruct),
        Body::Struct(fields) => match list_items(d.attrs@, DERIVE@) {
            Err(id) => r == Err::<Expansion, ExpandError>(ExpandError::MalformedDeriveItem { attr: id }),
            Ok(items) => match table_name_from(d.attrs@, None) {
                Err(id) => r == Err::<Expansion, ExpandError>(ExpandError::MalformedTableName { attr: id }),
                Ok(t) => if well_classified(fields@) {
                    r is Ok && expansion_of(r->Ok_0, d.name@, items, t, fields@)
                } else {
                    r is Err && first_malformed(fields@, r->Err_0)
                },
            },
        },
    }
}

/// The groups of a partition, seen as candidates, are the named variants
/// of its fields.
proof fn lemma_groups_view(groups: Seq<PrefixGroup>, fs: Seq<Field>)
    requires
        groups_of(groups, fs),
    ensures
        group_views(groups) == variant_groups(fs),
{
    assert(group_views(groups) =~= variant_groups(fs));
}

/// Expands one annotated declaration (see `expansion_result`).
pub fn expand_diesel_intermediate_fields(decl: Declaration) -> (r: Result<Expansion, ExpandError>)
    ensures
        expansion_result(decl, r),
{
    let Declaration { name, attrs, body } = decl;
    let fields = match body {
        Body::Struct(fields) => fields,
        Body::Enum => {
            return Err(ExpandError::NotAStruct);
        },
    };
    let derives = match extract_items(&attrs, DERIVE) {
        Ok(d) => d,
        Err(e) => {
            return Err(e);
        },
    };
    let table_name = match extract_table_name_attr(&attrs) {
        Ok(t) => t,
        Err(e) => {
            return Err(e);
        },
    };
    let ghost fs = fields@;
    let im = match extract_intermediates(fields) {
        Ok(im) => im,
        Err(e) => {
            return Err(e);
        },
    };
    proof {
        lemma_groups_view(im.prefix_excluded@, fs);
    }
    let (structs, impls) = build_items(&name, &im);
    Ok(Expansion { derives, table_name, fields: im.fields, structs, impls })
}

/// The struct built by a conversion function with parameter fields
/// `params` and copied fields `copied`: each parameter from `given`, every
/// other field from `base`.
pub open spec fn assemble<A>(params: Seq<usize>, copied: Seq<usize>, given: Map<usize, A>, base: Map<usize, A>) -> Map<usize, A> {
    Map::new(
        |i: usize| params.contains(i) || copied.contains(i),
        |i: usize| if params.contains(i) { given[i] } else { base[i] },
    )
}

/// The fields of the reduced variant `c`: those that tell it apart, and the
/// common ones.
pub open spec fn variant_field_set(c: Candidate, common: Seq<usize>) -> Set<usize> {
    c.1.to_set() + common.to_set()
}

/// Building the full struct from an instance of any reduced variant with
/// the conversion function generated for it, and then reading that
/// variant's fields back, gives the instance's values: the function's
/// parameters are `minus(excluded, c.1)` and it copies the common fields
/// followed by `meet(excluded, c.1)` (see `fn_matches` and `differences`).
pub proof fn lemma_round_trip<A>(fs: Seq<Field>, c: Candidate, given: Map<usize, A>, base: Map<usize, A>)
    requires
        fs.len() <= usize::MAX,
        variant_groups(fs).push((DEFAULT_PREFIX@, common_ids(fs))).contains(c),
        base.dom() == variant_field_set(c, common_ids(fs)),
    ensures
        assemble(
            minus(excluded_ids(fs), c.1),
            common_ids(fs) + meet(excluded_ids(fs), c.1),
            given,
            base,
        ).restrict(variant_field_set(c, common_ids(fs))) == base,
{
    let common = common_ids(fs);
    let excluded = excluded_ids(fs);
    let params = minus(excluded, c.1);
    let copied = common + meet(excluded, c.1);
    let v = variant_field_set(c, common);
    let built = assemble(params, copied, given, base);
    let cands = variant_groups(fs).push((DEFAULT_PREFIX@, common));
    let k = choose|k: int| 0 <= k < cands.len() && cands[k] == c;
    lemma_common_and_excluded_partition(fs);
    assert forall|i: usize| #[trigger] v.contains(i) implies !params.contains(i) && copied.contains(i) by {
        lemma_minus_contains(excluded, c.1, i);
        lemma_meet_contains(excluded, c.1, i);
        if common.contains(i) {
            let j = choose|j: int| 0 <= j < common.len() && common[j] == i;
            assert(copied[j] == i);
        } else {
            assert(c.1.contains(i));
            if k < variant_groups(fs).len() {
                lemma_groups_within_excluded(fs, c.0);
                assert(c.1 == group_ids(fs, c.0));
            }
            let j = choose|j: int| 0 <= j < meet(excluded, c.1).len() && meet(excluded, c.1)[j] == i;
            assert(copied[common.len() + j] == i);
        }
    }
    assert(built.restrict(v) =~= base);
}

/// No prefix is listed twice.
proof fn lemma_prefixes_distinct(fs: Seq<Field>)
    ensures
        forall|a: int, b: int|
            0 <= a < b < prefixes(fs).len() ==> #[trigger] prefixes(fs)[a] != #[trigger] prefixes(fs)[b],
    decreases fs.len(),
{
    if fs.len() > 0 {
        let prev = prefixes(fs.drop_last());
        lemma_prefixes_distinct(fs.drop_last());
        assert forall|a: int, b: int| 0 <= a < b < prefixes(fs).len() implies #[trigger] prefixes(fs)[a]
            != #[trigger] prefixes(fs)[b] by {
            if b == prev.len() {
                assert(prev[a] == prefixes(fs)[a]);
            } else {
                assert(prefixes(fs)[a] == prev[a] && prefixes(fs)[b] == prev[b]);
            }
        }
    }
}

/// Two names with the same suffix are equal only if their prefixes are.
proof fn lemma_same_suffix(p: Seq<char>, q: Seq<char>, base: Seq<char>)
    requires
        p + base == q + base,
    ensures
        p == q,
{
    assert((p + base).len() == p.len() + base.len());
    assert((q + base).len() == q.len() + base.len());
    assert(p =~= (p + base).subrange(0, p.len() as int));
    assert(q =~= (q + base).subrange(0, q.len() as int));
}

/// Each variant is declared once: unless a field names the default
/// variant's own prefix, the generated structs have pairwise distinct names,
/// so the default variant and the variant of each prefix stand in exactly
/// one struct each.
pub proof fn lemma_variants_declared_once(
    structs: Seq<VariantStruct>,
    impls: Seq<FromImpl>,
    base: Seq<char>,
    fs: Seq<Field>,
)
    requires
        plan_matches(structs, impls, base, common_ids(fs), excluded_ids(fs), variant_groups(fs)),
        !prefixes(fs).contains(DEFAULT_PREFIX@),
    ensures
        forall|a: int, b: int|
            0 <= a < b < structs.len() ==> (#[trigger] structs[a]).name@ != (#[trigger] structs[b]).name@,
{
    let gs = variant_groups(fs);
    lemma_prefixes_distinct(fs);
    assert forall|a: int, b: int| 0 <= a < b < structs.len() implies (#[trigger] structs[a]).name@
        != (#[trigger] structs[b]).name@ by {
        let kb = b - 1;
        let pb = prefixes(fs)[kb];
        assert(gs[kb].0 == pb);
        assert(structs[kb + 1].name@ == gs[kb].0 + base);
        if a == 0 {
            if structs[a].name@ == structs[b].name@ {
                lemma_same_suffix(DEFAULT_PREFIX@, pb, base);
                assert(prefixes(fs).contains(DEFAULT_PREFIX@));
            }
        } else {
            let ka = a - 1;
            let pa = prefixes(fs)[ka];
            assert(gs[ka].0 == pa);
            assert(structs[ka + 1].name@ == gs[ka].0 + base);
            if structs[a].name@ == structs[b].name@ {
                lemma_same_suffix(pa, pb, base);
            }
        }
    }
}

} // verus!
