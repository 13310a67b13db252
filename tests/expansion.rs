use diesel_derive_intermediate::attrs::{
    extract_items, extract_table_name_attr, field_status, strip_attr, Attr, Field, FieldStatus, Meta, Nested,
};
use diesel_derive_intermediate::difference::{contains_id, split_fields};
use diesel_derive_intermediate::error::{ExcludeProblem, ExpandError};
use diesel_derive_intermediate::partition::extract_intermediates;
use diesel_derive_intermediate::synth::{
    concat_ids, conversion_fn_name, expand_diesel_intermediate_fields, from_fn_name, variant_name, Body,
    Declaration, Expansion, FromFn,
};

fn word(id: usize, name: &str) -> Attr {
    Attr { id, meta: Meta::Word(name.to_string()) }
}

fn list(id: usize, name: &str, items: &[&str]) -> Attr {
    let vals = items.iter().map(|s| Nested::Word(s.to_string())).collect();
    Attr { id, meta: Meta::List(name.to_string(), vals) }
}

fn name_value(id: usize, name: &str, lit: &str) -> Attr {
    Attr { id, meta: Meta::NameValue(name.to_string(), lit.to_string()) }
}

fn field(name: &str, attrs: Vec<Attr>) -> Field {
    Field { name: name.to_string(), attrs }
}

fn excluded(name: &str) -> Field {
    field(name, vec![word(0, "intermediate_exclude")])
}

fn prefixed(name: &str, prefix: &str) -> Field {
    field(name, vec![list(0, "intermediate_exclude", &[prefix])])
}

fn plain(name: &str) -> Field {
    field(name, vec![])
}

fn declaration(name: &str, attrs: Vec<Attr>, fields: Vec<Field>) -> Declaration {
    Declaration { name: name.to_string(), attrs, body: Body::Struct(fields) }
}

fn expand_ok(d: Declaration) -> Expansion {
    match expand_diesel_intermediate_fields(d) {
        Ok(e) => e,
        Err(e) => panic!("unexpected error {:?}", e),
    }
}

fn expand_err(d: Declaration) -> ExpandError {
    match expand_diesel_intermediate_fields(d) {
        Ok(_) => panic!("expected an error"),
        Err(e) => e,
    }
}

fn check_fn(f: &FromFn, name: &str, source: &str, params: &[usize], copied: &[usize]) {
    assert_eq!(f.name, name);
    assert_eq!(f.source, source);
    assert_eq!(f.params, params.to_vec());
    assert_eq!(f.copied, copied.to_vec());
}

#[test]
fn excluded_id_gives_new_variant_and_conversion() {
    let e = expand_ok(declaration(
        "Mycologist",
        vec![list(0, "intermediate_derive", &["Debug"])],
        vec![excluded("id"), plain("name")],
    ));
    assert_eq!(e.derives, vec!["Debug".to_string()]);
    assert_eq!(e.table_name, None);
    assert_eq!(e.structs.len(), 1);
    assert_eq!(e.structs[0].name, "NewMycologist");
    assert_eq!(e.structs[0].fields, vec![1]);
    assert_eq!(e.impls.len(), 1);
    assert_eq!(e.impls[0].target, "Mycologist");
    assert_eq!(e.impls[0].fns.len(), 1);
    check_fn(&e.impls[0].fns[0], "from_new_mycologist", "NewMycologist", &[0], &[1]);
}

#[test]
fn prefixed_field_gives_named_variant_and_three_conversions() {
    let e = expand_ok(declaration(
        "Item",
        vec![],
        vec![excluded("id"), prefixed("tag", "X"), plain("name")],
    ));
    assert_eq!(e.structs.len(), 2);
    assert_eq!(e.structs[0].name, "NewItem");
    assert_eq!(e.structs[0].fields, vec![2]);
    assert_eq!(e.structs[1].name, "XItem");
    assert_eq!(e.structs[1].fields, vec![1, 2]);

    assert_eq!(e.impls.len(), 2);
    assert_eq!(e.impls[0].target, "Item");
    assert_eq!(e.impls[0].fns.len(), 2);
    check_fn(&e.impls[0].fns[0], "from_x_item", "XItem", &[0], &[2, 1]);
    check_fn(&e.impls[0].fns[1], "from_new_item", "NewItem", &[0, 1], &[2]);

    assert_eq!(e.impls[1].target, "XItem");
    assert_eq!(e.impls[1].fns.len(), 1);
    check_fn(&e.impls[1].fns[0], "from_new_item", "NewItem", &[1], &[2]);
}

#[test]
fn captured_rust_example() {
    let e = expand_ok(declaration(
        "Rust",
        vec![list(0, "intermediate_derive", &["Debug", "PartialEq"])],
        vec![excluded("id"), prefixed("mycologist_id", "Captured"), plain("life_cycle_stage")],
    ));
    assert_eq!(e.derives, vec!["Debug".to_string(), "PartialEq".to_string()]);
    assert_eq!(e.structs[1].name, "CapturedRust");
    assert_eq!(e.structs[1].fields, vec![1, 2]);
    check_fn(&e.impls[0].fns[0], "from_captured_rust", "CapturedRust", &[0], &[2, 1]);
    check_fn(&e.impls[0].fns[1], "from_new_rust", "NewRust", &[0, 1], &[2]);
    // The prefixed field is stored without its marker; the bare one keeps it.
    assert_eq!(e.fields[1].attrs.len(), 0);
    assert_eq!(e.fields[0].attrs.len(), 1);
}

#[test]
fn two_prefixes_are_rejected() {
    let f = field("tag", vec![list(0, "intermediate_exclude", &["A", "B"])]);
    let err = expand_err(declaration("Item", vec![], vec![plain("name"), f]));
    assert_eq!(err, ExpandError::MalformedExclude { field: 1, problem: ExcludeProblem::SeveralPrefixes });
}

#[test]
fn empty_marker_list_is_rejected() {
    let f = field("tag", vec![list(0, "intermediate_exclude", &[])]);
    let err = expand_err(declaration("Item", vec![], vec![f]));
    assert_eq!(err, ExpandError::MalformedExclude { field: 0, problem: ExcludeProblem::NoArgument });
}

#[test]
fn non_identifier_prefix_is_rejected() {
    let f = field("tag", vec![Attr { id: 0, meta: Meta::List("intermediate_exclude".to_string(), vec![Nested::Other]) }]);
    let err = expand_err(declaration("Item", vec![], vec![f]));
    assert_eq!(err, ExpandError::MalformedExclude { field: 0, problem: ExcludeProblem::NotAnIdentifier });
}

#[test]
fn enum_is_rejected() {
    let d = Declaration { name: "Kind".to_string(), attrs: vec![], body: Body::Enum };
    assert_eq!(expand_err(d), ExpandError::NotAStruct);
}

#[test]
fn malformed_derive_item_is_rejected() {
    let bad = Attr {
        id: 3,
        meta: Meta::List("intermediate_derive".to_string(), vec![Nested::Word("Debug".to_string()), Nested::Other]),
    };
    let err = expand_err(declaration("Item", vec![bad], vec![plain("name")]));
    assert_eq!(err, ExpandError::MalformedDeriveItem { attr: 3 });
}

#[test]
fn list_table_name_override_is_rejected() {
    let err = expand_err(declaration(
        "Item",
        vec![list(2, "intermediate_table_name", &["items"])],
        vec![plain("name")],
    ));
    assert_eq!(err, ExpandError::MalformedTableName { attr: 2 });
}

#[test]
fn table_name_override_wins() {
    let attrs = vec![name_value(0, "table_name", "\"items\""), name_value(1, "intermediate_table_name", "\"new_items\"")];
    assert_eq!(extract_table_name_attr(&attrs), Ok(Some("\"new_items\"".to_string())));
    let attrs = vec![name_value(0, "intermediate_table_name", "\"new_items\""), name_value(1, "table_name", "\"items\"")];
    assert_eq!(extract_table_name_attr(&attrs), Ok(Some("\"new_items\"".to_string())));
}

#[test]
fn own_table_name_is_kept() {
    let attrs = vec![word(0, "other"), name_value(1, "table_name", "\"items\"")];
    assert_eq!(extract_table_name_attr(&attrs), Ok(Some("\"items\"".to_string())));
    assert_eq!(extract_table_name_attr(&vec![]), Ok(None));
    let e = expand_ok(declaration("Item", attrs, vec![plain("name")]));
    assert_eq!(e.table_name, Some("\"items\"".to_string()));
}

#[test]
fn derive_items_are_collected_in_order() {
    let attrs = vec![
        list(0, "intermediate_derive", &["Debug"]),
        list(1, "derive", &["Clone"]),
        list(2, "intermediate_derive", &["PartialEq", "Insertable"]),
    ];
    let items = extract_items(&attrs, "intermediate_derive").unwrap();
    assert_eq!(items, vec!["Debug".to_string(), "PartialEq".to_string(), "Insertable".to_string()]);
    assert_eq!(extract_items(&vec![], "intermediate_derive").unwrap(), Vec::<String>::new());
}

#[test]
fn classification_of_single_fields() {
    assert!(matches!(field_status(&plain("a")), Ok(FieldStatus::Included)));
    assert!(matches!(field_status(&excluded("a")), Ok(FieldStatus::Excluded)));
    match field_status(&prefixed("a", "Captured")) {
        Ok(FieldStatus::ExcludedWithPrefix(p)) => assert_eq!(p, "Captured"),
        _ => panic!("expected a prefix"),
    }
    let doc = field("a", vec![name_value(0, "doc", "\"text\""), word(1, "intermediate_exclude")]);
    assert!(matches!(field_status(&doc), Ok(FieldStatus::Excluded)));
}

#[test]
fn first_marker_wins() {
    let f = field("a", vec![word(0, "intermediate_exclude"), list(1, "intermediate_exclude", &["X"])]);
    assert!(matches!(field_status(&f), Ok(FieldStatus::Excluded)));
    let f = field("a", vec![list(0, "intermediate_exclude", &["X"]), word(1, "intermediate_exclude")]);
    assert!(matches!(field_status(&f), Ok(FieldStatus::ExcludedWithPrefix(_))));
}

#[test]
fn stripped_field_is_included() {
    let attrs = vec![word(0, "serde"), list(1, "intermediate_exclude", &["X"]), word(2, "intermediate_exclude")];
    let stripped = strip_attr(attrs);
    assert_eq!(stripped.len(), 1);
    assert_eq!(stripped[0].id, 0);
    assert!(matches!(field_status(&field("a", stripped)), Ok(FieldStatus::Included)));
}

#[test]
fn partition_covers_every_field_once() {
    let fs = vec![excluded("id"), plain("a"), prefixed("b", "X"), plain("c"), prefixed("d", "Y"), prefixed("e", "X")];
    let im = extract_intermediates(fs).ok().unwrap();
    assert_eq!(im.common_fields, vec![1, 3]);
    assert_eq!(im.excluded_at_least_once, vec![0, 2, 4, 5]);
    let mut all: Vec<usize> = im.common_fields.clone();
    all.extend(im.excluded_at_least_once.iter());
    all.sort();
    assert_eq!(all, vec![0, 1, 2, 3, 4, 5]);
    assert_eq!(im.prefix_excluded.len(), 2);
    assert_eq!(im.prefix_excluded[0].prefix, "X");
    assert_eq!(im.prefix_excluded[0].fields, vec![2, 5]);
    assert_eq!(im.prefix_excluded[1].prefix, "Y");
    assert_eq!(im.prefix_excluded[1].fields, vec![4]);
    for g in &im.prefix_excluded {
        for i in &g.fields {
            assert!(im.excluded_at_least_once.contains(i));
        }
    }
}

#[test]
fn struct_without_markers_has_no_conversions() {
    let e = expand_ok(declaration("Item", vec![], vec![plain("a"), plain("b")]));
    assert_eq!(e.structs.len(), 1);
    assert_eq!(e.structs[0].fields, vec![0, 1]);
    assert_eq!(e.impls[0].fns.len(), 0);
}

#[test]
fn empty_struct_expands() {
    let e = expand_ok(declaration("Unit", vec![], vec![]));
    assert_eq!(e.structs.len(), 1);
    assert_eq!(e.structs[0].name, "NewUnit");
    assert!(e.structs[0].fields.is_empty());
    assert!(e.impls[0].fns.is_empty());
}

#[test]
fn conversions_between_named_variants() {
    // id excluded; a only in X; b only in Y; c common.
    let e = expand_ok(declaration(
        "Big",
        vec![],
        vec![excluded("id"), prefixed("a", "X"), prefixed("b", "Y"), plain("c")],
    ));
    let full = &e.impls[0];
    assert_eq!(full.fns.len(), 3);
    check_fn(&full.fns[0], "from_x_big", "XBig", &[0, 2], &[3, 1]);
    check_fn(&full.fns[1], "from_y_big", "YBig", &[0, 1], &[3, 2]);
    check_fn(&full.fns[2], "from_new_big", "NewBig", &[0, 1, 2], &[3]);
    let x = &e.impls[1];
    assert_eq!(x.target, "XBig");
    assert_eq!(x.fns.len(), 2);
    check_fn(&x.fns[0], "from_y_big", "YBig", &[1], &[3]);
    check_fn(&x.fns[1], "from_new_big", "NewBig", &[1], &[3]);
}

#[test]
fn round_trip_through_full_struct() {
    let e = expand_ok(declaration(
        "Item",
        vec![],
        vec![excluded("id"), prefixed("tag", "X"), plain("name"), prefixed("code", "X")],
    ));
    // Each conversion into the full struct copies every field of its source
    // variant from the instance and takes none of them as a parameter.
    for f in &e.impls[0].fns {
        let variant = e.structs.iter().find(|s| s.name == f.source).unwrap();
        for i in &variant.fields {
            assert!(f.copied.contains(i));
            assert!(!f.params.contains(i));
        }
        // Parameters and copied fields together give every field once.
        let mut all: Vec<usize> = f.params.clone();
        all.extend(f.copied.iter());
        all.sort();
        assert_eq!(all, vec![0, 1, 2, 3]);
    }
}

#[test]
fn conversion_names_use_snake_case() {
    assert_eq!(conversion_fn_name(&"CapturedRust".to_string()), "from_captured_rust");
    assert_eq!(conversion_fn_name(&"NewXMLItem".to_string()), "from_new_xml_item");
    assert_eq!(from_fn_name("abc"), "from_abc");
    assert_eq!(variant_name(&"New".to_string(), &"Rust".to_string()), "NewRust");
}

#[test]
fn id_helpers() {
    let a = vec![4, 1, 7];
    let b = vec![7, 9];
    assert!(contains_id(&a, 7));
    assert!(!contains_id(&a, 9));
    assert_eq!(split_fields(&a, &b), (vec![4, 1], vec![7]));
    assert_eq!(concat_ids(&a, &b), vec![4, 1, 7, 7, 9]);
}

#[test]
fn differences_against_each_variant() {
    let fs = vec![excluded("id"), prefixed("tag", "X"), plain("name")];
    let im = extract_intermediates(fs).ok().unwrap();
    let full = im.field_differences_full();
    assert_eq!(full.len(), 2);
    assert_eq!(full[0].other, "X");
    assert_eq!(full[0].unique, vec![0]);
    assert_eq!(full[0].shared, vec![1]);
    assert_eq!(full[1].other, "New");
    assert_eq!(full[1].unique, vec![0, 1]);
    assert!(full[1].shared.is_empty());
    let x = im.field_differences(&"X".to_string());
    assert_eq!(x.len(), 1);
    assert_eq!(x[0].other, "New");
    assert_eq!(x[0].unique, vec![1]);
    assert!(x[0].shared.is_empty());
}

#[test]
fn name_value_exclusion_marker_is_rejected() {
    let f = field("tag", vec![name_value(0, "intermediate_exclude", "\"X\"")]);
    assert!(matches!(field_status(&f), Err(ExcludeProblem::NotAnIdentifier)));
    let err = expand_err(declaration("Item", vec![], vec![plain("name"), f]));
    assert_eq!(err, ExpandError::MalformedExclude { field: 1, problem: ExcludeProblem::NotAnIdentifier });
    // Stripping removes the marker in this form too.
    let stripped = strip_attr(vec![name_value(0, "intermediate_exclude", "\"X\""), word(1, "other")]);
    assert_eq!(stripped.len(), 1);
    assert_eq!(stripped[0].id, 1);
}

#[test]
fn non_string_table_name_override_is_rejected() {
    let attrs = vec![name_value(4, "intermediate_table_name", "5")];
    assert_eq!(extract_table_name_attr(&attrs), Err(ExpandError::MalformedTableName { attr: 4 }));
    let attrs = vec![name_value(0, "table_name", "\"items\""), name_value(1, "intermediate_table_name", "b\"x\"")];
    assert_eq!(extract_table_name_attr(&attrs), Err(ExpandError::MalformedTableName { attr: 1 }));
    let err = expand_err(declaration("Item", attrs, vec![plain("name")]));
    assert_eq!(err, ExpandError::MalformedTableName { attr: 1 });
}

#[test]
fn bare_table_name_override_is_rejected() {
    let attrs = vec![word(0, "other"), word(1, "intermediate_table_name")];
    assert_eq!(extract_table_name_attr(&attrs), Err(ExpandError::MalformedTableName { attr: 1 }));
}

#[test]
fn raw_string_table_name_override_is_accepted() {
    let attrs = vec![name_value(0, "intermediate_table_name", "r#\"items\"#")];
    assert_eq!(extract_table_name_attr(&attrs), Ok(Some("r#\"items\"#".to_string())));
    let attrs = vec![name_value(0, "intermediate_table_name", "r\"items\"")];
    assert_eq!(extract_table_name_attr(&attrs), Ok(Some("r\"items\"".to_string())));
}

#[test]
fn each_variant_is_declared_once() {
    let e = expand_ok(declaration(
        "Big",
        vec![],
        vec![prefixed("a", "X"), prefixed("b", "Y"), prefixed("c", "X"), plain("d")],
    ));
    let names: Vec<&str> = e.structs.iter().map(|s| s.name.as_str()).collect();
    assert_eq!(names, vec!["NewBig", "XBig", "YBig"]);
    assert_eq!(e.structs[1].fields, vec![0, 2, 3]);
    assert_eq!(e.structs[2].fields, vec![1, 3]);
}
