//! The attribute model and the per-field classifier.
use vstd::prelude::*;

use crate::error::{ExcludeProblem, ExpandError};
use crate::{DIESEL_TABLE_NAME, EXCLUDE, OVERRIDE_TABLE_NAME};

verus! {

/// One entry of an attribute's argument list.
pub enum Nested {
    /// A bare identifier, such as `Debug` in `derive(Debug)`.
    Word(String),
    /// Anything else: a literal or a nested list.
    Other,
}

/// The content of one attribute.
pub enum Meta {
    /// `#[name]`
    Word(String),
    /// `#[name(args...)]`
    List(String, Vec<Nested>),
    /// `#[name = literal]`, with the literal as written in the source.
    NameValue(String, String),
}

/// An attribute, with its position in the list it was declared in.
pub struct Attr {
    pub id: usize,
    pub meta: Meta,
}

/// A field of the annotated struct: its name and its attributes. Its type and
/// visibility are carried by the caller, who identifies the field by its
/// position in the declaration.
pub struct Field {
    pub name: String,
    pub attrs: Vec<Attr>,
}

/// How a field takes part in the generated variants.
pub enum FieldStatus {
    /// In every variant.
    Included,
    /// In no reduced variant; only the full struct has it.
    Excluded,
    /// Only in the named variant with this prefix.
    ExcludedWithPrefix(String),
}

/// The classification of a field, as a mathematical value.
pub enum Classified {
    Included,
    Excluded,
    Prefixed(Seq<char>),
    Malformed(ExcludeProblem),
}

/// The mathematical value of a status.
pub open spec fn status_view(s: FieldStatus) -> Classified {
    match s {
        FieldStatus::Included => Classified::Included,
        FieldStatus::Excluded => Classified::Excluded,
        FieldStatus::ExcludedWithPrefix(p) => Classified::Prefixed(p@),
    }
}

/// Whether this attribute is an exclusion marker, in any form.
pub open spec fn is_marker(a: Attr) -> bool {
    match a.meta {
        Meta::Word(n) => n@ == EXCLUDE@,
        Meta::List(n, _) => n@ == EXCLUDE@,
        Meta::NameValue(n, _) => n@ == EXCLUDE@,
    }
}

/// What one attribute decides about its field, if anything.
pub open spec fn decision(a: Attr) -> Option<Classified> {
    match a.meta {
        Meta::Word(n) => if n@ == EXCLUDE@ {
            Some(Classified::Excluded)
        } else {
            None
        },
        Meta::List(n, vals) => if n@ != EXCLUDE@ {
            None
        } else if vals@.len() == 0 {
            Some(Classified::Malformed(ExcludeProblem::NoArgument))
        } else if vals@.len() > 1 {
            Some(Classified::Malformed(ExcludeProblem::SeveralPrefixes))
        } else {
            match vals@[0] {
                Nested::Word(p) => Some(Classified::Prefixed(p@)),
                Nested::Other => Some(Classified::Malformed(ExcludeProblem::NotAnIdentifier)),
            }
        },
        Meta::NameValue(n, _) => if n@ == EXCLUDE@ {
            Some(Classified::Malformed(ExcludeProblem::NotAnIdentifier))
        } else {
            None
        },
    }
}

/// The classification of a field with these attributes: the first attribute
/// that decides anything wins; with none, the field is included.
pub open spec fn classify(attrs: Seq<Attr>) -> Classified
    decreases attrs.len(),
{
    if attrs.len() == 0 {
        Classified::Included
    } else {
        match decision(attrs[0]) {
            Some(c) => c,
            None => classify(attrs.drop_first()),
        }
    }
}

/// The attributes without the exclusion markers, in order.
pub open spec fn strip(attrs: Seq<Attr>) -> Seq<Attr>
    decreases attrs.len(),
{
    if attrs.len() == 0 {
        attrs
    } else if is_marker(attrs.last()) {
        strip(attrs.drop_last())
    } else {
        strip(attrs.drop_last()).push(attrs.last())
    }
}

/// Whether `n` spells `lit`.
pub fn name_is(n: &String, lit: &str) -> (r: bool)
    ensures
        r == (n@ == lit@),
{
    let l = String::from_str(lit);
    *n == l
}

/// Classifies a field by its attributes (see `classify`).
pub fn field_status(field: &Field) -> (r: Result<FieldStatus, ExcludeProblem>)
    ensures
        match r {
            Ok(s) => status_view(s) == classify(field.attrs@),
            Err(p) => classify(field.attrs@) == Classified::Malformed(p),
        },
{
    let attrs = &field.attrs;
    let n = attrs.len();
    let mut i: usize = 0;
    assert(attrs@.subrange(0, n as int) =~= attrs@);
    while i < n
        invariant
            attrs@ == field.attrs@,
            n == attrs@.len(),
            i <= n,
            classify(attrs@) == classify(attrs@.subrange(i as int, n as int)),
        decreases n - i,
    {
        let ghost rest = attrs@.subrange(i as int, n as int);
        assert(rest.drop_first() =~= attrs@.subrange(i + 1, n as int));
        assert(rest[0] == attrs@[i as int]);
        assert(classify(rest) == match decision(attrs@[i as int]) {
            Some(c) => c,
            None => classify(attrs@.subrange(i + 1, n as int)),
        });
        match &attrs[i].meta {
            Meta::Word(name) => {
                if name_is(name, EXCLUDE) {
                    return Ok(FieldStatus::Excluded);
                }
            },
            Meta::List(name, vals) => {
                if name_is(name, EXCLUDE) {
                    if vals.len() == 0 {
                        return Err(ExcludeProblem::NoArgument);
                    } else if vals.len() > 1 {
                        return Err(ExcludeProblem::SeveralPrefixes);
                    }
                    match &vals[0] {
                        Nested::Word(p) => {
                            return Ok(FieldStatus::ExcludedWithPrefix(p.clone()));
                        },
                        Nested::Other => {
                            return Err(ExcludeProblem::NotAnIdentifier);
                        },
                    }
                }
            },
            Meta::NameValue(name, _) => {
                if name_is(name, EXCLUDE) {
                    return Err(ExcludeProblem::NotAnIdentifier);
                }
            },
        }
        i = i + 1;
    }
    assert(attrs@.subrange(n as int, n as int) =~= Seq::<Attr>::empty());
    Ok(FieldStatus::Included)
}

/// Whether `a` is an exclusion marker (see `is_marker`).
pub fn is_marker_attr(a: &Attr) -> (r: bool)
    ensures
        r == is_marker(*a),
{
    match &a.meta {
        Meta::Word(n) => name_is(n, EXCLUDE),
        Meta::List(n, _) => name_is(n, EXCLUDE),
        Meta::NameValue(n, _) => name_is(n, EXCLUDE),
    }
}

/// Removes every exclusion marker from `attrs`, keeping the other attributes
/// in order.
pub fn strip_attr(attrs: Vec<Attr>) -> (r: Vec<Attr>)
    ensures
        r@ == strip(attrs@),
{
    let ghost orig = attrs@;
    let mut rest = attrs;
    let mut kept: Vec<Attr> = Vec::new();
    let n = rest.len();
    let mut i: usize = 0;
    assert(orig.subrange(0, 0) =~= Seq::<Attr>::empty());
    assert(orig.subrange(0, n as int) =~= orig);
    while i < n
        invariant
            n == orig.len(),
            i <= n,
            rest@ == orig.subrange(i as int, n as int),
            kept@ == strip(orig.subrange(0, i as int)),
        decreases n - i,
    {
        let a = rest.remove(0);
        assert(a == orig[i as int]);
        assert(orig.subrange(0, i + 1).drop_last() =~= orig.subrange(0, i as int));
        assert(rest@ =~= orig.subrange(i + 1, n as int));
        if !is_marker_attr(&a) {
            kept.push(a);
        }
        i = i + 1;
    }
    assert(orig.subrange(0, n as int) =~= orig);
    kept
}

/// The identifiers of a list, or `None` if an entry is not a bare identifier.
pub open spec fn words(vals: Seq<Nested>) -> Option<Seq<Seq<char>>>
    decreases vals.len(),
{
    if vals.len() == 0 {
        Some(Seq::empty())
    } else {
        match words(vals.drop_last()) {
            None => None,
            Some(w) => match vals.last() {
                Nested::Word(v) => Some(w.push(v@)),
                Nested::Other => None,
            },
        }
    }
}

/// The entries of every `name(...)` attribute, in order, or the id of the
/// first such attribute with an entry that is not a bare identifier.
pub open spec fn list_items(attrs: Seq<Attr>, name: Seq<char>) -> Result<Seq<Seq<char>>, usize>
    decreases attrs.len(),
{
    if attrs.len() == 0 {
        Ok(Seq::empty())
    } else {
        match list_items(attrs.drop_last(), name) {
            Err(id) => Err(id),
            Ok(items) => match attrs.last().meta {
                Meta::List(n, vals) => if n@ != name {
                    Ok(items)
                } else {
                    match words(vals@) {
                        Some(w) => Ok(items + w),
                        None => Err(attrs.last().id),
                    }
                },
                _ => Ok(items),
            },
        }
    }
}

/// The characters of each string.
pub open spec fn views(v: Seq<String>) -> Seq<Seq<char>> {
    v.map_values(|s: String| s@)
}

/// Collects the entries of every `name(...)` attribute (see `list_items`).
pub fn extract_items(attrs: &Vec<Attr>, name: &str) -> (r: Result<Vec<String>, ExpandError>)
    ensures
        match list_items(attrs@, name@) {
            Ok(items) => r is Ok && views(r->Ok_0@) == items,
            Err(id) => r == Err::<Vec<String>, ExpandError>(ExpandError::MalformedDeriveItem { attr: id }),
        },
{
    let mut out: Vec<String> = Vec::new();
    let n = attrs.len();
    let mut i: usize = 0;
    assert(views(out@) =~= Seq::<Seq<char>>::empty());
    while i < n
        invariant
            n == attrs@.len(),
            i <= n,
            list_items(attrs@.subrange(0, i as int), name@) == Ok::<Seq<Seq<char>>, usize>(views(out@)),
        decreases n - i,
    {
        let ghost prev = attrs@.subrange(0, i as int);
        assert(attrs@.subrange(0, i + 1).drop_last() =~= prev);
        match &attrs[i].meta {
            Meta::List(n_, vals) => {
                if name_is(n_, name) {
                    let m = vals.len();
                    let mut j: usize = 0;
                    let ghost base = views(out@);
                    assert(vals@.subrange(0, 0) =~= Seq::<Nested>::empty());
                    while j < m
                        invariant
                            n == attrs@.len(),
                            i < n,
                            attrs@[i as int].meta == Meta::List(*n_, *vals),
                            n_@ == name@,
                            list_items(attrs@.subrange(0, i as int), name@) == Ok::<Seq<Seq<char>>, usize>(base),
                            m == vals@.len(),
                            j <= m,
                            words(vals@.subrange(0, j as int)) == Some(views(out@).subrange(base.len() as int, views(out@).len() as int)),
                            views(out@).subrange(0, base.len() as int) == base,
                            base.len() <= views(out@).len(),
                        decreases m - j,
                    {
                        assert(vals@.subrange(0, j + 1).drop_last() =~= vals@.subrange(0, j as int));
                        match &vals[j] {
                            Nested::Word(v) => {
                                let ghost before = views(out@);
                                out.push(v.clone());
                                assert(views(out@) =~= before.push(v@));
                                assert(views(out@).subrange(base.len() as int, views(out@).len() as int) =~=
                                    before.subrange(base.len() as int, before.len() as int).push(v@));
                                assert(views(out@).subrange(0, base.len() as int) =~= before.subrange(0, base.len() as int));
                            },
                            Nested::Other => {
                                assert(words(vals@.subrange(0, j + 1)) is None);
                                proof { lemma_words_none_sticks(vals@, j as int + 1); }
                                assert(attrs@.subrange(0, i + 1).drop_last() =~= attrs@.subrange(0, i as int));
                                assert(attrs@.subrange(0, i + 1).last() == attrs@[i as int]);
                                assert(list_items(attrs@.subrange(0, i + 1), name@) == Err::<Seq<Seq<char>>, usize>(attrs@[i as int].id));
                                proof { lemma_list_items_err_sticks(attrs@, name@, i as int + 1); }
                                return Err(ExpandError::MalformedDeriveItem { attr: attrs[i].id });
                            },
                        }
                        j = j + 1;
                    }
                    assert(vals@.subrange(0, m as int) =~= vals@);
                    assert(views(out@) =~= base + views(out@).subrange(base.len() as int, views(out@).len() as int));
                }
            },
            _ => {},
        }
        i = i + 1;
    }
    assert(attrs@.subrange(0, n as int) =~= attrs@);
    Ok(out)
}

/// Once `words` fails on a prefix, it fails on every longer prefix.
proof fn lemma_words_none_sticks(vals: Seq<Nested>, k: int)
    requires
        0 <= k <= vals.len(),
        words(vals.subrange(0, k)) is None,
    ensures
        words(vals) is None,
    decreases vals.len() - k,
{
    if k < vals.len() {
        assert(vals.subrange(0, k + 1).drop_last() =~= vals.subrange(0, k));
        lemma_words_none_sticks(vals, k + 1);
    } else {
        assert(vals.subrange(0, k) =~= vals);
    }
}

/// Once `list_items` fails on a prefix, it fails with the same id on every
/// longer prefix.
proof fn lemma_list_items_err_sticks(attrs: Seq<Attr>, name: Seq<char>, k: int)
    requires
        0 <= k <= attrs.len(),
        list_items(attrs.subrange(0, k), name) is Err,
    ensures
        list_items(attrs, name) == list_items(attrs.subrange(0, k), name),
    decreases attrs.len() - k,
{
    if k < attrs.len() {
        assert(attrs.subrange(0, k + 1).drop_last() =~= attrs.subrange(0, k));
        lemma_list_items_err_sticks(attrs, name, k + 1);
    } else {
        assert(attrs.subrange(0, k) =~= attrs);
    }
}

/// Whether `s`, a literal as written in the source, is a string literal:
/// `"..."`, or a raw one `r"..."` / `r#"..."#`.
pub open spec fn is_string_literal(s: Seq<char>) -> bool {
    ||| s.len() >= 2 && s[0] == '"' && s.last() == '"'
    ||| s.len() >= 3 && s[0] == 'r' && (s[1] == '"' || s[1] == '#') && (s.last() == '"' || s.last() == '#')
}

/// Whether `lit` is a string literal (see `is_string_literal`).
pub fn is_string_lit(lit: &String) -> (r: bool)
    ensures
        r == is_string_literal(lit@),
{
    let s = lit.as_str();
    let n = s.unicode_len();
    if n < 2 {
        return false;
    }
    let first = s.get_char(0);
    let last = s.get_char(n - 1);
    if first == '"' {
        last == '"'
    } else if n >= 3 && first == 'r' {
        let second = s.get_char(1);
        (second == '"' || second == '#') && (last == '"' || last == '#')
    } else {
        false
    }
}

/// The table name to put on the generated variants, scanning `attrs` from
/// the front with `found` the last `table_name = ..` seen so far: the first
/// `intermediate_table_name = "..."` wins outright; that marker in any other
/// form (a word, a list, or a value that is not a string literal) is an
/// error, with that attribute's id; otherwise the last `table_name = ..` is
/// kept.
pub open spec fn table_name_from(attrs: Seq<Attr>, found: Option<Seq<char>>) -> Result<Option<Seq<char>>, usize>
    decreases attrs.len(),
{
    if attrs.len() == 0 {
        Ok(found)
    } else {
        match attrs[0].meta {
            Meta::NameValue(n, lit) => if n@ == OVERRIDE_TABLE_NAME@ {
                if is_string_literal(lit@) {
                    Ok(Some(lit@))
                } else {
                    Err(attrs[0].id)
                }
            } else if n@ == DIESEL_TABLE_NAME@ {
                table_name_from(attrs.drop_first(), Some(lit@))
            } else {
                table_name_from(attrs.drop_first(), found)
            },
            Meta::List(n, _) => if n@ == OVERRIDE_TABLE_NAME@ {
                Err(attrs[0].id)
            } else {
                table_name_from(attrs.drop_first(), found)
            },
            Meta::Word(n) => if n@ == OVERRIDE_TABLE_NAME@ {
                Err(attrs[0].id)
            } else {
                table_name_from(attrs.drop_first(), found)
            },
        }
    }
}

/// The characters of an optional string.
pub open spec fn opt_view(o: Option<String>) -> Option<Seq<char>> {
    match o {
        Some(s) => Some(s@),
        None => None,
    }
}

/// The table name literal for the generated variants (see `table_name_from`).
pub fn extract_table_name_attr(attrs: &Vec<Attr>) -> (r: Result<Option<String>, ExpandError>)
    ensures
        match table_name_from(attrs@, None) {
            Ok(t) => r is Ok && opt_view(r->Ok_0) == t,
            Err(id) => r == Err::<Option<String>, ExpandError>(ExpandError::MalformedTableName { attr: id }),
        },
{
    let mut found: Option<String> = None;
    let n = attrs.len();
    let mut i: usize = 0;
    assert(attrs@.subrange(0, n as int) =~= attrs@);
    while i < n
        invariant
            n == attrs@.len(),
            i <= n,
            table_name_from(attrs@, None) == table_name_from(attrs@.subrange(i as int, n as int), opt_view(found)),
        decreases n - i,
    {
        let ghost rest = attrs@.subrange(i as int, n as int);
        assert(rest.drop_first() =~= attrs@.subrange(i + 1, n as int));
        assert(rest[0] == attrs@[i as int]);
        match &attrs[i].meta {
            Meta::NameValue(n_, lit) => {
                if name_is(n_, OVERRIDE_TABLE_NAME) {
                    if is_string_lit(lit) {
                        return Ok(Some(lit.clone()));
                    }
                    return Err(ExpandError::MalformedTableName { attr: attrs[i].id });
                } else if name_is(n_, DIESEL_TABLE_NAME) {
                    found = Some(lit.clone());
                }
            },
            Meta::List(n_, _) => {
                if name_is(n_, OVERRIDE_TABLE_NAME) {
                    return Err(ExpandError::MalformedTableName { attr: attrs[i].id });
                }
            },
            Meta::Word(n_) => {
                if name_is(n_, OVERRIDE_TABLE_NAME) {
                    return Err(ExpandError::MalformedTableName { attr: attrs[i].id });
                }
            },
        }
        i = i + 1;
    }
    assert(attrs@.subrange(n as int, n as int) =~= Seq::<Attr>::empty());
    Ok(found)
}

/// No attribute that survives `strip` is a marker.
proof fn lemma_strip_has_no_marker(attrs: Seq<Attr>)
    ensures
        forall|k: int| 0 <= k < strip(attrs).len() ==> !is_marker(#[trigger] strip(attrs)[k]),
    decreases attrs.len(),
{
    if attrs.len() > 0 {
        let prev = strip(attrs.drop_last());
        lemma_strip_has_no_marker(attrs.drop_last());
        if !is_marker(attrs.last()) {
            assert forall|k: int| 0 <= k < strip(attrs).len() implies !is_marker(#[trigger] strip(attrs)[k]) by {
                if k < prev.len() {
                    assert(strip(attrs)[k] == prev[k]);
                }
            }
        }
    }
}

/// A list without markers classifies its field as included.
proof fn lemma_no_marker_included(attrs: Seq<Attr>)
    requires
        forall|k: int| 0 <= k < attrs.len() ==> !is_marker(#[trigger] attrs[k]),
    ensures
        classify(attrs) == Classified::Included,
    decreases attrs.len(),
{
    if attrs.len() > 0 {
        assert(!is_marker(attrs[0]));
        assert forall|k: int| 0 <= k < attrs.drop_first().len() implies !is_marker(#[trigger] attrs.drop_first()[k]) by {
            assert(attrs.drop_first()[k] == attrs[k + 1]);
        }
        lemma_no_marker_included(attrs.drop_first());
    }
}

/// Classifying a field again after its exclusion markers were stripped
/// finds it included.
pub proof fn lemma_stripped_is_included(attrs: Seq<Attr>)
    ensures
        classify(strip(attrs)) == Classified::Included,
{
    lemma_strip_has_no_marker(attrs);
    lemma_no_marker_included(strip(attrs));
}

} // verus!
