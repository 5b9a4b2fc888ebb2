//! Column, literal, alias and `LIKE` expressions, and the texts and bytes
//! that they are made of.
use tt_core::alias;
use tt_core::children::{like_children, NodeChild};
use tt_core::column::{
    add_virtual_witness, display, field_matches_column, field_name_matches_qualified,
    field_name_matches_unqualified, field_qualifier_name, field_unqualified_name,
    first_scope_with_column, output_exprs, output_fields, same_field_identity,
    tracked_table_index_of_column, tracked_table_indices_of_column_with_segments, ScopeSchema,
    ScopeTable,
};
use tt_core::constraints::Constraints;
use tt_core::df_schema::{DfSchema, QualifiedField};
use tt_core::field_bytes::{checked_pow2, field_to_i64_like, le_to_usize};
use tt_core::hints::HintDF;
use tt_core::like::{
    self, commit_and_wire_prover, expected_shapes, find_string_column_base_name, locate_inputs,
    output_field_name, required_side_columns, supported_pattern, track_and_wire_verifier,
    wildcard_output, Factor, LikeError, LikeUnsupported, Mode, WitnessColumn,
};
use tt_core::like_scan::{
    active_bytes, build_virtual_char_domain, char_activity, char_domain_hint, find_string_column,
    initialize_gadget_plans, plan_hint_labels, scan_string_side_data, trailing_twos,
    CharColumnError, EncodedSegment, RowSource, SegmentData,
};
use tt_core::literal::{self, constants_domain, Domain, Literal};
use tt_core::metadata::Metadata;
use tt_core::plan::{Column, Expr, ScalarValue, TableReference};
use tt_core::schema::{DataType, Field};
use tt_core::table::{
    activator_field, row_id_field, Party, Poly, PolyId, SideColumn, Table, TrackedColumn,
    ACTIVATOR_COL_NAME, ROW_ID_COL_NAME,
};
use tt_core::text::{
    decimal_text, find_last, last_segment, name_prefix, trim_char, wide_decimal_text,
    without_prefix, without_suffix,
};

fn bare(name: &str) -> Option<TableReference> {
    Some(TableReference::Bare { table: name.to_string() })
}

fn poly(n: usize) -> Poly {
    Poly { id: PolyId::Numbered(n), tracker: 0, log_size: 2 }
}

fn under(qualifier: &str, name: &str) -> Field {
    Field::new(name, DataType::Utf8, false).with_metadata(
        Metadata::new().with("tt.qualifier".to_string(), qualifier.to_string()),
    )
}

fn col(field: Field, n: usize) -> TrackedColumn {
    TrackedColumn { field, poly: poly(n) }
}

/// A string column in two segments, another column and the system columns.
fn table() -> Table {
    Table::of(
        vec![
            col(under("t", "s"), 1),
            col(under("t", "s__length"), 2),
            col(under("t", "x"), 3),
            col(row_id_field(), 4),
            col(activator_field(), 5),
        ],
        2,
    )
}

// ---------------------------------------------------------------------------
// Columns
// ---------------------------------------------------------------------------

#[test]
fn names_are_read_behind_the_last_dot() {
    assert_eq!(field_unqualified_name("a.b.c"), "c");
    assert_eq!(field_unqualified_name("c"), "c");
    assert!(field_name_matches_unqualified("a.c", "c"));
    assert!(field_name_matches_unqualified("a.c", "a.c"));
    assert!(!field_name_matches_unqualified("ac", "c"));
    assert!(field_name_matches_qualified("a.c", "a", "c"));
    assert!(!field_name_matches_qualified("b.c", "a", "c"));
    assert_eq!(field_qualifier_name(&under("t", "s")), Some("t".to_string()));
    let dotted = Field::new("u.s", DataType::Utf8, false);
    assert_eq!(field_qualifier_name(&dotted), Some("u".to_string()));
    assert!(same_field_identity(&under("u", "s"), &dotted));
    assert!(!same_field_identity(&under("t", "s"), &dotted));
}

#[test]
fn columns_are_found_with_their_segments() {
    let s = Column::new(bare("t"), "s");
    assert!(field_matches_column(&under("t", "s"), &s));
    assert!(!field_matches_column(&under("u", "s"), &s));
    assert_eq!(tracked_table_index_of_column(&table(), &s), Some(0));
    assert_eq!(tracked_table_indices_of_column_with_segments(&table(), &s), vec![0, 1]);
    // A qualifier that no column has gives way to the name.
    assert_eq!(tracked_table_index_of_column(&table(), &Column::new(bare("u"), "s")), Some(0));
    assert_eq!(tracked_table_index_of_column(&table(), &Column::new(bare("t"), "w")), None);
}

#[test]
fn a_column_is_bound_to_the_first_node_that_has_it() {
    let other = Table::of(vec![col(under("u", "y"), 9)], 2);
    let scopes = vec![
        ScopeTable { id: 10, table: None },
        ScopeTable { id: 11, table: Some(other) },
        ScopeTable { id: 12, table: Some(table()) },
    ];
    let s = Column::new(bare("t"), "s");
    let (found, binding) = add_virtual_witness(&scopes, None, &s).expect("the column is there");
    assert_eq!(binding.scope, 12);
    assert_eq!(binding.indices[..2], [0, 1]);
    assert_eq!(found.poly_by_name("s"), Some(poly(1)));
    // The binding is kept and gives the same table.
    let (again, kept) = add_virtual_witness(&scopes, Some(binding), &s).expect("still there");
    assert_eq!(kept.scope, 12);
    assert_eq!(again.cols.len(), found.cols.len());
    assert!(add_virtual_witness(&scopes, None, &Column::new(bare("t"), "w")).is_none());
}

fn schema(names: &[(&str, &str)]) -> DfSchema {
    DfSchema {
        fields: names
            .iter()
            .map(|(relation, name)| QualifiedField {
                qualifier: bare(relation),
                field: Field::new(name, DataType::Int64, false),
            })
            .collect(),
    }
}

#[test]
fn a_column_plans_itself_and_the_system_columns() {
    let s = schema(&[("t", "a"), ("t", ROW_ID_COL_NAME), ("t", ACTIVATOR_COL_NAME)]);
    let a = Column::new_unqualified("a");
    assert_eq!(output_exprs(&s, &a).len(), 3);
    assert_eq!(output_exprs(&s, &Column::new_unqualified(ACTIVATOR_COL_NAME)).len(), 2);
    let schemas = vec![schema(&[("u", "b")]), schema(&[("t", "a")])];
    assert_eq!(first_scope_with_column(&schemas, &a), Some(1));
    assert_eq!(first_scope_with_column(&schemas, &Column::new_unqualified("c")), None);
    let scopes = vec![ScopeSchema { lp_schema: None, output: Some(s) }];
    let fields = output_fields(None, &scopes, &a).expect("the column is planned");
    let names: Vec<&str> = fields.iter().map(|f| f.name.as_str()).collect();
    assert_eq!(names, vec!["a", ROW_ID_COL_NAME, ACTIVATOR_COL_NAME]);
    assert!(output_fields(None, &scopes, &Column::new_unqualified("z")).is_none());
    assert_eq!(
        display("TableScan", &Column::new(bare("t"), "a")),
        "Column\nScope: TableScan, column: t.a"
    );
}

// ---------------------------------------------------------------------------
// Literals and aliases
// ---------------------------------------------------------------------------

#[test]
fn constants_lie_over_the_rows_of_their_scope() {
    for party in [Party::Prover, Party::Verifier] {
        assert_eq!(
            constants_domain(&table(), party),
            Some(Domain { tracker: 0, log_size: 2 })
        );
    }
    assert_eq!(constants_domain(&Table::of(vec![], 2), Party::Prover), None);
    let value = Literal {
        label: "7".to_string(),
        data_type: DataType::Int64,
        segments: vec![(String::new(), poly(20)), ("__length".to_string(), poly(21))],
    };
    let t = literal::add_virtual_witness(&table(), &value, Party::Prover).expect("an activator");
    assert_eq!(t.poly_by_name("7"), Some(poly(20)));
    assert_eq!(t.poly_by_name("7__length"), Some(poly(21)));
    assert_eq!(t.activator(), Some(poly(5)));
    assert_eq!(t.poly_by_name(ROW_ID_COL_NAME), Some(poly(4)));
    assert_eq!(literal::display("Filter", "7"), "Literal\nScope: Filter, value: 7");
}

#[test]
fn an_alias_renames_the_first_column_with_its_segments() {
    let t = alias::add_virtual_witness(&table(), "z");
    let names: Vec<&str> = t.cols.iter().map(|c| c.field.name.as_str()).collect();
    assert_eq!(names, vec!["z", "z__length", "x", ROW_ID_COL_NAME, ACTIVATOR_COL_NAME]);
    let polys: Vec<Poly> = t.cols.iter().map(|c| c.poly).collect();
    assert_eq!(polys, (1..6).map(poly).collect::<Vec<_>>());
    let fields = alias::output_fields(&bare("q"), "z", None, &schema(&[]));
    assert_eq!(fields[0].name, "q.z");
    assert!(fields[0].data_type.same(&DataType::Null));
}

#[test]
fn an_alias_leaves_a_second_column_of_the_same_name_alone() {
    let column = |name: &str, nullable: bool, id: usize| TrackedColumn {
        field: Field::new(name, DataType::Utf8, nullable),
        poly: poly(id),
    };
    let joined = Table::of(
        vec![
            column("n_name", false, 1),
            column("n_name__length", false, 2),
            column("n_name", true, 3),
            column("n_name__length", true, 4),
        ],
        2,
    );
    let t = alias::add_virtual_witness(&joined, "supp");
    let names: Vec<&str> = t.cols.iter().map(|c| c.field.name.as_str()).collect();
    assert_eq!(names, vec!["supp", "supp__length", "n_name", "n_name__length"]);
    assert_eq!(
        alias::display("Column", "supp", "Join"),
        "Alias\nInput: Column, alias: supp, scope: Join"
    );
}

// ---------------------------------------------------------------------------
// LIKE
// ---------------------------------------------------------------------------

fn like(pattern: Expr, negated: bool, case_insensitive: bool, escape: Option<char>) -> Expr {
    Expr::Like {
        negated,
        expr: Box::new(Expr::Column(Column::new_unqualified("s"))),
        pattern: Box::new(pattern),
        escape_char: escape,
        case_insensitive,
    }
}

fn text(s: &str) -> Expr {
    Expr::Literal(ScalarValue::Utf8(Some(s.to_string())))
}

#[test]
fn only_plain_patterns_are_proved() {
    assert_eq!(supported_pattern(&like(text("%a%"), false, false, None)), Ok("%a%".to_string()));
    let cases = [
        (like(text("a"), true, false, None), LikeUnsupported::Negated),
        (like(text("a"), false, true, None), LikeUnsupported::CaseInsensitive),
        (like(text("a"), false, false, Some('!')), LikeUnsupported::Escape),
        (
            like(Expr::Column(Column::new_unqualified("p")), false, false, None),
            LikeUnsupported::Pattern,
        ),
        (text("a"), LikeUnsupported::NotLike),
    ];
    for (expr, fault) in cases {
        assert_eq!(supported_pattern(&expr), Err(fault));
    }
    let s = Expr::Column(Column::new_unqualified("s"));
    assert!(output_field_name(&s, &text("%a%")).contains("%a%"));
    assert_eq!(required_side_columns(0, &vec![Column::new_unqualified("s")]), Vec::<String>::new());
    assert_eq!(required_side_columns(1, &vec![Column::new_unqualified("s")]), vec!["s"]);
}

fn side(name: &str, n: usize, activator: Option<Poly>) -> SideColumn {
    SideColumn {
        field: Field::new(name, DataType::Int64, false),
        data: Poly { log_size: 3, ..poly(n) },
        activator,
    }
}

fn string_scope() -> Table {
    let mut t = table();
    t.side_cols = vec![
        side("s__chars", 31, Some(Poly { log_size: 3, ..poly(35) })),
        side("s__orig_ind", 32, None),
        side("s__int_ind", 33, None),
        side("s__bnd", 34, None),
    ];
    t
}

#[test]
fn a_like_reads_the_characters_beside_its_rows() {
    let x = locate_inputs(&string_scope()).expect("all inputs are there");
    assert_eq!(find_string_column_base_name(&string_scope().side_cols), Some("s".to_string()));
    assert_eq!((x.length, x.activator, x.row_id), (poly(2), poly(5), Some(poly(4))));
    assert_eq!((x.char_domain, x.str_domain), (3, 2));
    let missing = |name: &str| {
        let mut t = string_scope();
        t.side_cols.retain(|c| c.field.name != name);
        t.cols.retain(|c| c.field.name != name);
        locate_inputs(&t).err()
    };
    assert_eq!(missing("s__chars"), Some(LikeError::NoStringColumn));
    assert_eq!(missing("s__orig_ind"), Some(LikeError::MissingOrigInd));
    assert_eq!(missing("s__int_ind"), Some(LikeError::MissingIntInd));
    assert_eq!(missing("s__bnd"), Some(LikeError::MissingBnd));
    assert_eq!(missing("s__length"), Some(LikeError::MissingLength));
    assert_eq!(missing(ACTIVATOR_COL_NAME), Some(LikeError::MissingActivator));
    let mut t = string_scope();
    t.side_cols[0].activator = None;
    assert_eq!(locate_inputs(&t).err(), Some(LikeError::MissingCharActivator));
}

#[test]
fn both_parties_commit_to_the_same_columns() {
    let factors =
        vec![Factor { len: 2, mode: Mode::Infix }, Factor { len: 1, mode: Mode::Suffix }];
    let field = Field::new("out", DataType::Boolean, true);
    let own = Table::of(vec![col(field.copy(), 40)], 2);
    let shapes = expected_shapes(&factors);
    let p = commit_and_wire_prover(&string_scope(), &own, &field, &shapes, 50).expect("prover");
    let v = track_and_wire_verifier(&string_scope(), &own, &field, &factors, 50).expect("verifier");
    assert_eq!(p.commits, v.commits);
    // Three for the length filter; for the first factor two shifted
    // characters, seven columns, a shifted boundary and what lies behind; for
    // the second one character, seven columns and a mask at the end.
    assert_eq!(p.commits.len(), 3 + 11 + 9);
    assert_eq!(p.commits[3].column, WitnessColumn::RotatedChar(0, 0));
    assert_eq!(p.payload.len(), v.payload.len());
    for (a, b) in p.payload.iter().zip(&v.payload) {
        assert_eq!(a.0, b.0);
        let polys = |t: &Table| t.cols.iter().map(|c| c.poly).collect::<Vec<_>>();
        assert_eq!(polys(&a.1), polys(&b.1));
    }
    assert_eq!(p.output.poly_by_name("out"), Some(poly(40)));
    assert_eq!(
        commit_and_wire_prover(&string_scope(), &Table::of(vec![], 2), &field, &shapes, 50).err(),
        Some(LikeError::MissingOutput)
    );
    let all = wildcard_output(&string_scope(), &field).expect("an activator");
    let one = Poly { id: PolyId::One, tracker: 0, log_size: 2 };
    assert_eq!(all.poly_by_name("out"), Some(one));
    assert_eq!(all.activator(), Some(poly(5)));
    assert_eq!(all.poly_by_name(ROW_ID_COL_NAME), Some(poly(4)));
    assert_eq!(
        wildcard_output(&Table::of(vec![], 2), &field).err(),
        Some(LikeError::MissingActivator)
    );
}

#[test]
fn the_output_of_a_like_comes_first() {
    let field = Field::new("s_LIKE_%a%", DataType::Boolean, true);
    let scope = string_scope();
    for party in [Party::Prover, Party::Verifier] {
        let w = like::add_virtual_witness(&scope, &field, 1, 60, party).expect("all inputs");
        assert!(w.committed);
        assert_eq!(w.output.poly_by_name("s_LIKE_%a%"), Some(poly(60)));
        assert_eq!(w.output.poly_by_name(ROW_ID_COL_NAME), Some(poly(4)));
        // A pattern without literal factors matches every row and commits
        // nothing.
        let all = like::add_virtual_witness(&scope, &field, 0, 60, party).expect("an activator");
        assert!(!all.committed);
        let one = Poly { id: PolyId::One, tracker: 0, log_size: 2 };
        assert_eq!(all.output.poly_by_name("s_LIKE_%a%"), Some(one));
        assert_eq!(all.output.activator(), Some(poly(5)));
        assert_eq!(all.output.log_size, 2);
        assert_eq!(
            like::add_virtual_witness(&Table::of(vec![], 2), &field, 0, 60, party).err(),
            Some(LikeError::MissingActivator)
        );
        assert_eq!(
            like::add_virtual_witness(&Table::of(vec![], 2), &field, 1, 60, party).err(),
            Some(LikeError::NoStringColumn)
        );
    }
    // Without literal factors there is nothing to check.
    assert_eq!(like_children(0), vec![NodeChild::Input]);
    assert_eq!(like_children(2), vec![NodeChild::Input, NodeChild::Gadget]);
    // The verifier does not read the other inputs.
    let mut bare_scope = string_scope();
    bare_scope.side_cols.truncate(1);
    assert_eq!(
        like::add_virtual_witness(&bare_scope, &field, 1, 60, Party::Prover).err(),
        Some(LikeError::MissingOrigInd)
    );
    assert!(like::add_virtual_witness(&bare_scope, &field, 1, 60, Party::Verifier).is_ok());
}

#[test]
fn planned_columns_are_put_under_their_labels() {
    let store = Constraints::new();
    let start = || vec![("__like_f0_mark_plan_hint__".to_string(), char_domain_hint(&store, "x"))];
    let labels = |p: &Vec<(String, HintDF)>| p.iter().map(|e| e.0.clone()).collect::<Vec<_>>();
    let mut payload = start();
    initialize_gadget_plans(&store, &mut payload, 2, None, Party::Verifier);
    assert_eq!(
        labels(&payload),
        vec![
            "__like_f0_mark_plan_hint__",
            "__like_orig_ind_plan_hint__",
            "__like_f1_mark_plan_hint__"
        ]
    );
    let names: Vec<String> =
        payload.iter().map(|e| e.1.schema.fields[0].field.name.clone()).collect();
    assert_eq!(names, vec!["mark", "orig_ind", "mark"]);
    // The prover plans only what it could scan, and nothing without factors.
    let mut skipped = start();
    initialize_gadget_plans(&store, &mut skipped, 2, None, Party::Prover);
    initialize_gadget_plans(&store, &mut skipped, 0, None, Party::Verifier);
    assert_eq!(labels(&skipped), labels(&start()));
    assert_eq!(skipped[0].1.schema.fields[0].field.name, "x");
}

#[test]
fn planned_strings_are_scanned_by_segment() {
    let fields = vec![row_id_field(), Field::new("s", DataType::Utf8View, false)];
    assert_eq!(find_string_column(&fields), Some(1));
    assert_eq!(find_string_column(&vec![row_id_field()]), None);
    let lengths = vec![Some(3), None];
    assert_eq!(active_bytes(&lengths), 3);
    let segment =
        |suffix: &str, data: SegmentData| EncodedSegment { suffix: suffix.to_string(), data };
    let segments = |chars: SegmentData| {
        vec![
            segment("__length", SegmentData::Rows),
            segment("__chars", chars),
            segment("__orig_ind", SegmentData::Numbers { len: 4 }),
            segment("__int_ind", SegmentData::Numbers { len: 4 }),
            segment("__bnd", SegmentData::Bytes { len: 4 }),
        ]
    };
    let scan = scan_string_side_data(&fields, &lengths, &segments(SegmentData::Bytes { len: 4 }))
        .expect("all segments are there");
    assert_eq!(scan.char_act, vec![true, true, true, false]);
    assert_eq!((scan.char_domain, scan.str_domain), (2, 1));
    assert_eq!((scan.ind, scan.a), (RowSource::Column(0), RowSource::Ones(2)));
    assert!(scan_string_side_data(&fields, &lengths, &segments(SegmentData::Other)).is_none());
    assert_eq!(trailing_twos(40), 3);
    assert_eq!(trailing_twos(0), 0);
    assert_eq!(char_activity(2, 0), vec![false, false]);
}

#[test]
fn planned_characters_are_padded_to_a_power_of_two() {
    let column = build_virtual_char_domain(&vec![vec![97], vec![98], vec![1, 1]]).expect("few rows");
    assert_eq!(column.values, vec![97, 98, 257, 0]);
    assert_eq!(column.row_ids, vec![0, 1, 2, 3]);
    assert_eq!(build_virtual_char_domain(&vec![]).expect("no rows").values, vec![0, 0]);
    assert_eq!(
        build_virtual_char_domain(&vec![vec![1], vec![0, 0, 0, 0, 0, 0, 0, 0, 1]]).err(),
        Some(CharColumnError::ValueTooLarge)
    );
    let hint = char_domain_hint(&Constraints::new(), "c");
    assert_eq!(
        hint.to_text(),
        "HintDF with 2 columns\nMaterialized: ()\nVirtual: (c,__row_id__)"
    );
    assert_eq!(
        plan_hint_labels(2),
        vec![
            "__like_orig_ind_plan_hint__",
            "__like_f0_mark_plan_hint__",
            "__like_f1_mark_plan_hint__"
        ]
    );
}

// ---------------------------------------------------------------------------
// Texts and bytes
// ---------------------------------------------------------------------------

#[test]
fn texts_are_taken_apart() {
    assert_eq!(decimal_text(0), "0");
    assert_eq!(decimal_text(usize::MAX), format!("{}", usize::MAX));
    assert_eq!(wide_decimal_text(u128::MAX), format!("{}", u128::MAX));
    assert_eq!(find_last("a.b.c", '.'), Some(3));
    assert_eq!(find_last("abc", '.'), None);
    assert_eq!(last_segment("a.b"), "b");
    assert_eq!(name_prefix("a.b.c"), Some("a.b".to_string()));
    assert_eq!(name_prefix("c"), None);
    assert_eq!(without_suffix("s__chars", "__chars"), Some("s".to_string()));
    assert_eq!(without_suffix("s", "__chars"), None);
    assert_eq!(without_prefix("s__chars", "s"), Some("__chars".to_string()));
    assert_eq!(trim_char("\"\"a\"b\"", '"'), "a\"b");
}

#[test]
fn field_bytes_are_read_from_the_low_end() {
    assert_eq!(le_to_usize(&vec![1, 2]), Some(513));
    assert_eq!(le_to_usize(&vec![]), Some(0));
    let mut wide = vec![0; 16];
    wide[8] = 1;
    assert_eq!(le_to_usize(&wide), None);
    assert_eq!(field_to_i64_like(&vec![5, 0, 0, 0, 0, 0, 0, 0, 0, 0]), Some(5));
    assert_eq!(field_to_i64_like(&vec![255; 8]), Some(-1));
    // Two to the 64th and half of it again: more than eight bytes.
    assert_eq!(field_to_i64_like(&vec![0, 0, 0, 0, 0, 0, 0, 128, 1]), None);
    assert_eq!(field_to_i64_like(&wide), None);
    assert_eq!(checked_pow2(10), Some(1024));
    assert_eq!(checked_pow2(64), None);
}
