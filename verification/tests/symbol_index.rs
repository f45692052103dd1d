//! The symbol index.
use jabar::definition::{Definition, SymbolKind};
use jabar::index_model::{Occurrence, StoredReference};
use jabar::shard::short_name_of;
use jabar::span::{covers, encloses, span_len, PositionEncoding, Range};
use jabar::symbol_index::lookup::TableRows;
use jabar::symbol_index::snapshot::{
    IndexSnapshot, OccurrenceRows, ReferenceRows, SnapshotError,
};
use jabar::symbol_index::SymbolIndex;
use jabar::table::NameNumber;
use protobuf::Message;
use scip::types::{Index, SymbolRole};

#[test]
fn short_names_strip_scip_sigils() {
    assert_eq!(short_name_of("semanticdb maven . . com/acme/core/RetryPolicy#"), "RetryPolicy");
    assert_eq!(
        short_name_of("semanticdb maven . . com/acme/util/Preconditions#checkNotNull()."),
        "checkNotNull"
    );
    assert_eq!(
        short_name_of("semanticdb maven . . com/acme/policy/PolicyRegistry#byName."),
        "byName"
    );
    assert_eq!(short_name_of("semanticdb maven jdk 26 java/util/List#"), "List");
    // Constructors are spelled with backticks.
    assert_eq!(short_name_of("semanticdb maven . . com/acme/A#`<init>`()."), "<init>");
    // Non-ASCII identifiers are legal Java and must survive.
    assert_eq!(short_name_of("semanticdb maven . . com/acme/i18n/Messages#grüße()."), "grüße");
    // A method's type parameter is named by the parameter, not the method.
    assert_eq!(
        short_name_of("semanticdb maven . . com/acme/util/Preconditions#checkNotNull().[T]"),
        "T"
    );
}

#[test]
fn ranges_read_both_scip_encodings() {
    assert_eq!(
        Range::from_scip(&[5, 10, 20]),
        Some(Range { start_line: 5, start_col: 10, end_line: 5, end_col: 20 })
    );
    assert_eq!(
        Range::from_scip(&[5, 10, 7, 2]),
        Some(Range { start_line: 5, start_col: 10, end_line: 7, end_col: 2 })
    );
    assert_eq!(Range::from_scip(&[1, 2]), None, "too short to be a range");
    assert_eq!(Range::from_scip(&[]), None);
}

#[test]
fn overlapping_shards_deduplicate_sites_without_losing_distinct_resolutions() {
    let symbol = "semanticdb maven example lib example/Library#call().";
    let other = "semanticdb maven example lib example/Other#call().";
    let mut first = Index::new();
    let mut doc = scip::types::Document::new();
    doc.relative_path = "src/Caller.java".to_owned();
    for (name, line, roles) in
        [(symbol, 1, SymbolRole::Definition as i32), (symbol, 4, 0), (other, 4, 0)]
    {
        let mut occurrence = scip::types::Occurrence::new();
        occurrence.range = vec![line, 2, 6];
        occurrence.symbol = name.to_owned();
        occurrence.symbol_roles = roles;
        doc.occurrences.push(occurrence);
    }
    first.documents.push(doc);

    let mut second = first.clone();
    let doc = &mut second.documents[0];
    let mut distinct_site = doc.occurrences[0].clone();
    distinct_site.range = vec![2, 2, 6];
    doc.occurrences.push(distinct_site);
    let mut distinct_reference = doc.occurrences[1].clone();
    distinct_reference.range = vec![5, 2, 6];
    doc.occurrences.push(distinct_reference);

    let mut index = SymbolIndex::new();
    assert!(index.add_shard(&first.write_to_bytes().unwrap()));
    assert!(index.add_shard(&second.write_to_bytes().unwrap()));
    assert_eq!(index.definition_count(), 2);
    assert_eq!(index.definitions_in("src/Caller.java").len(), 2);
    assert_eq!(index.search("call").len(), 2);
    assert_eq!(index.reference_count(), 3);
    assert_eq!(index.references(symbol).len(), 2);
    assert_eq!(index.references(other).len(), 1);
    assert_eq!(index.occurrence_count(), 5);

    let mut restored = SymbolIndex::from_snapshot(index.to_snapshot()).ok().unwrap();
    assert!(restored.add_shard(&second.write_to_bytes().unwrap()));
    assert_eq!(restored.definition_count(), 2);
    assert_eq!(restored.reference_count(), 3);
    assert_eq!(restored.occurrence_count(), 5);
}

#[test]
fn an_unparseable_shard_is_skipped_not_fatal() {
    // The low-level decoder reports failure without retaining a malformed
    // shard. Complete-generation callers reject the encompassing load.
    let mut index = SymbolIndex::new();
    assert!(!index.add_shard(b"this is not protobuf at all"));
    assert!(index.is_empty());
    assert_eq!(index.shard_count(), 0, "a shard that did not parse was not counted");
}

#[test]
fn searching_an_empty_index_finds_nothing() {
    let index = SymbolIndex::new();
    assert!(index.search("anything").is_empty());
    assert!(index.references("whatever").is_empty());
    assert!(index.implementors("whatever").is_empty());
    assert_eq!(index.definition("whatever").map(|d| &d.symbol), None);
}

#[test]
fn an_empty_query_matches_nothing_rather_than_everything() {
    // `contains("")` is true for every string; returning the whole index
    // would be a very expensive way to answer a meaningless question.
    let mut index = SymbolIndex::new();
    index.insert(def("com/acme/A#", "A"));
    assert!(index.search("").is_empty());
}

fn def(symbol: &str, name: &str) -> Definition {
    Definition {
        symbol: symbol.to_owned(),
        name: name.to_owned(),
        kind: SymbolKind::Class,
        path: format!("java/{name}.java"),
        range: Range { start_line: 0, start_col: 0, end_line: 0, end_col: 1 },
        encoding: PositionEncoding::Utf16,
        implements: Vec::new(),
        documentation: Vec::new(),
        signature: String::new(),
        enclosing: None,
    }
}

#[test]
fn search_ranks_exact_then_prefix_then_substring() {
    let mut index = SymbolIndex::new();
    for (symbol, name) in [
        ("com/acme/AbstractRetryPolicyBase#", "AbstractRetryPolicyBase"),
        ("com/acme/RetryPolicy#", "RetryPolicy"),
        ("com/acme/RetryPolicyFactory#", "RetryPolicyFactory"),
    ] {
        index.insert(def(symbol, name));
    }
    let names: Vec<_> = index.search("retrypolicy").iter().map(|d| d.name.as_str()).collect();
    assert_eq!(names, ["RetryPolicy", "RetryPolicyFactory", "AbstractRetryPolicyBase"]);
}

#[test]
fn limited_search_keeps_the_best_results_and_counts_all_matches() {
    let mut index = SymbolIndex::new();
    for (symbol, name) in [
        ("com/acme/AbstractRetryPolicyBase#", "AbstractRetryPolicyBase"),
        ("com/acme/RetryPolicy#", "RetryPolicy"),
        ("com/acme/RetryPolicyFactory#", "RetryPolicyFactory"),
    ] {
        index.insert(def(symbol, name));
    }

    let (hits, total) = index.search_limited("retrypolicy", 2, &|_: &Definition| true);
    let names: Vec<_> = hits.iter().map(|def| def.name.as_str()).collect();
    assert_eq!(names, ["RetryPolicy", "RetryPolicyFactory"]);
    assert_eq!(total, 3);
}

#[test]
fn limited_search_counts_only_included_matches_even_at_a_zero_limit() {
    let mut index = SymbolIndex::new();
    index.insert(def("com/acme/RetryPolicy#", "RetryPolicy"));
    index.insert(def("com/acme/RetryPolicyFactory#", "RetryPolicyFactory"));

    let (hits, total) =
        index.search_limited("retry", 0, &|definition: &Definition| {
            definition.name != "RetryPolicy"
        });
    assert!(hits.is_empty());
    assert_eq!(total, 1);
}

#[test]
fn search_is_case_insensitive() {
    let mut index = SymbolIndex::new();
    index.insert(def("com/acme/RetryPolicy#", "RetryPolicy"));
    assert_eq!(index.search("RETRYPOLICY").len(), 1);
    assert_eq!(index.search("retrypolicy").len(), 1);
    assert_eq!(index.search("Policy").len(), 1);
}

#[test]
fn a_symbol_defined_twice_is_stored_once() {
    // Re-indexing a target must not double every symbol in it.
    let mut index = SymbolIndex::new();
    index.insert(def("com/acme/A#", "A"));
    index.insert(def("com/acme/A#", "A"));
    assert_eq!(index.definition_count(), 1);
    assert_eq!(index.search("A").len(), 1);
}

fn r(sl: u32, sc: u32, el: u32, ec: u32) -> Range {
    Range { start_line: sl, start_col: sc, end_line: el, end_col: ec }
}

#[test]
fn a_range_covers_its_own_span_but_not_the_character_after() {
    let range = r(5, 10, 5, 15);
    assert!(covers(&range, 5, 10), "the first character is inside");
    assert!(covers(&range, 5, 14), "the last character is inside");
    // Half-open: a caret resting after an identifier does not select it,
    // which is how editors place the cursor after a click at a word's end.
    assert!(!covers(&range, 5, 15));
    assert!(!covers(&range, 5, 9));
    assert!(!covers(&range, 4, 12), "wrong line");
    assert!(!covers(&range, 6, 12));
}

#[test]
fn multi_line_ranges_cover_their_interior() {
    let range = r(2, 30, 4, 5);
    assert!(covers(&range, 2, 30), "start of the first line");
    assert!(!covers(&range, 2, 29), "before the start on the first line");
    assert!(covers(&range, 3, 0), "any column on an interior line");
    assert!(covers(&range, 3, 9999));
    assert!(covers(&range, 4, 4), "up to the end on the last line");
    assert!(!covers(&range, 4, 5));
}

#[test]
fn the_narrowest_overlapping_range_wins() {
    // `Map<String, RetryPolicy>` -- the cursor on `RetryPolicy` sits inside
    // both the whole type reference and the argument. The argument is what
    // the user means.
    assert!(span_len(&r(0, 10, 0, 21)) < span_len(&r(0, 0, 0, 30)));
    // A multi-line range is always wider than a single-line one.
    assert!(span_len(&r(0, 0, 0, 999)) < span_len(&r(0, 0, 1, 0)));
}

#[test]
fn enclosing_picks_the_innermost_callable() {
    assert!(encloses(&r(0, 0, 10, 0), &r(5, 4, 5, 9)));
    assert!(!encloses(&r(0, 0, 10, 0), &r(11, 0, 11, 5)));
    // A method's span is narrower than its class's, so it wins.
    assert!(span_len(&r(5, 2, 8, 3)) < span_len(&r(0, 0, 20, 1)));
}

#[test]
fn call_hierarchy_lookups_are_empty_on_an_unknown_file() {
    let index = SymbolIndex::new();
    assert!(index.enclosing_callable("nowhere.java", r(0, 0, 0, 1)).is_none());
    assert!(index.references_within("nowhere.java", r(0, 0, 99, 0)).is_empty());
}

#[test]
fn a_position_in_an_unknown_file_resolves_to_nothing() {
    let index = SymbolIndex::new();
    assert_eq!(index.symbol_at("nowhere/A.java", 0, 0), None);
    assert_eq!(index.occurrence_count(), 0);
}

#[test]
fn implementors_are_indexed_by_supertype() {
    let mut index = SymbolIndex::new();
    let mut impl_def = def("com/acme/DefaultRetryPolicy#", "DefaultRetryPolicy");
    impl_def.implements = vec!["com/acme/RetryPolicy#".to_owned()];
    index.insert(impl_def);

    let found = index.implementors("com/acme/RetryPolicy#");
    assert_eq!(found.len(), 1);
    assert_eq!(found[0].name, "DefaultRetryPolicy");
    assert!(index.implementors("com/acme/Unrelated#").is_empty());
}

/// What a test compares of the references to a symbol.
fn listed(index: &SymbolIndex, symbol: &str) -> Vec<(String, String, Range, bool)> {
    let references = index.references(symbol);
    references
        .iter()
        .iter()
        .map(|r| (r.symbol.to_owned(), r.path.to_owned(), r.range, r.is_import))
        .collect()
}

#[test]
fn references_intern_paths_and_round_trip_without_allocating_views() {
    let symbol = "semanticdb maven example lib example/Library#call().";
    let mut shard = Index::new();
    let mut document = scip::types::Document::new();
    document.relative_path = "src/Caller.java".to_owned();
    document.position_encoding =
        scip::types::PositionEncoding::UTF8CodeUnitOffsetFromLineStart.into();
    for (line, roles) in [(3, 0), (7, SymbolRole::Import as i32)] {
        let mut occurrence = scip::types::Occurrence::new();
        occurrence.range = vec![line, 4, 8];
        occurrence.symbol = symbol.to_owned();
        occurrence.symbol_roles = roles;
        document.occurrences.push(occurrence);
    }
    shard.documents.push(document);

    let mut index = SymbolIndex::new();
    assert!(index.add_shard(&shard.write_to_bytes().unwrap()));
    assert_eq!(index.reference_count(), 2);
    assert_eq!(index.reference_path_count(), 1);
    assert!(std::mem::size_of::<StoredReference>() <= 24);

    let before = listed(&index, symbol);
    assert_eq!(before[0].1, "src/Caller.java");
    assert!(!before[0].3);
    assert!(before[1].3);
    assert_eq!(index.references(symbol).get(0).encoding, PositionEncoding::Utf8);

    let mut restored = SymbolIndex::from_snapshot(index.to_snapshot()).ok().unwrap();
    assert_eq!(listed(&restored, symbol), before);
    assert_eq!(restored.reference_path_count(), 1);

    // A loaded index remains safely appendable without duplicating an
    // already-interned path when the skipped reverse map is rebuilt.
    assert!(restored.add_shard(&shard.write_to_bytes().unwrap()));
    assert_eq!(restored.reference_path_count(), 1);
    assert_eq!(restored.reference_count(), 2, "appending the same shard remains idempotent");
}

fn empty_snapshot() -> IndexSnapshot {
    IndexSnapshot {
        definitions: Vec::new(),
        references: Vec::new(),
        reference_paths: Vec::new(),
        occurrences: Vec::new(),
        by_name: Vec::new(),
        by_symbol: Vec::new(),
        implementors: Vec::new(),
        by_path: Vec::new(),
        symbol_names: Vec::new(),
        symbol_ids: Vec::new(),
        shards: 0,
    }
}

/// The numbers of symbols, by their positions.
fn numbers(names: &[&str]) -> Vec<NameNumber> {
    names
        .iter()
        .enumerate()
        .map(|(number, name)| NameNumber { name: name.to_string(), number })
        .collect()
}

/// What a table lists, in the order of its keys.
fn shown(table: &[TableRows]) -> Vec<(String, Vec<usize>)> {
    let mut rows: Vec<_> =
        table.iter().map(|entry| (entry.key.clone(), entry.rows.clone())).collect();
    rows.sort();
    rows
}

#[test]
fn a_snapshot_lists_every_lookup_table() {
    let mut index = SymbolIndex::new();
    let mut base = def("x/Base#", "Base");
    base.path = "a.java".to_owned();
    index.insert(base);
    for line in [1, 2] {
        let mut sub = def("x/Sub#", "Sub");
        sub.path = "a.java".to_owned();
        sub.range = r(line, 0, line, 3);
        sub.implements = vec!["x/Base#".to_owned()];
        index.insert(sub);
    }
    let entry = |key: &str, rows: &[usize]| (key.to_owned(), rows.to_vec());
    let snapshot = index.to_snapshot();
    assert_eq!(shown(&snapshot.by_name), [entry("base", &[0]), entry("sub", &[1, 2])]);
    assert_eq!(shown(&snapshot.by_symbol), [entry("x/Base#", &[0]), entry("x/Sub#", &[1])]);
    assert_eq!(shown(&snapshot.implementors), [entry("x/Base#", &[1, 2])]);
    assert_eq!(shown(&snapshot.by_path), [entry("a.java", &[0, 1, 2])]);

    let restored = SymbolIndex::from_snapshot(snapshot).ok().unwrap();
    assert!(restored.is_sound());
    assert_eq!(restored.implementors("x/Base#").len(), 2);
    assert_eq!(restored.definition("x/Sub#").unwrap().range, r(1, 0, 1, 3));
    assert_eq!(restored.definitions_in("a.java").len(), 3);
    assert_eq!(restored.search("SUB").len(), 2);
}

#[test]
fn a_snapshot_that_contradicts_itself_is_noticed() {
    let mut index = SymbolIndex::new();
    index.insert(def("x/A#", "A"));
    index.insert(def("x/B#", "B"));
    assert!(index.is_sound());
    let wrong: [fn(&mut IndexSnapshot); 10] = [
        |snapshot| snapshot.by_symbol[0].rows = vec![1],
        |snapshot| snapshot.by_name[0].rows = vec![7],
        |snapshot| snapshot.by_name[1].key = "a".to_owned(),
        |snapshot| snapshot.by_path.clear(),
        |snapshot| snapshot.by_path[0].rows.push(1),
        |snapshot| {
            let key = "x/A#".to_owned();
            snapshot.implementors.push(TableRows { key, rows: vec![1] });
        },
        |snapshot| snapshot.symbol_ids = numbers(&["x/A#"]),
        |snapshot| snapshot.symbol_names = vec!["x/A#".to_owned()],
        |snapshot| snapshot.reference_paths = vec!["A".to_owned(), "A".to_owned()],
        |snapshot| {
            let rows = vec![Occurrence { range: r(0, 0, 0, 1), symbol: 3 }];
            snapshot.occurrences = vec![OccurrenceRows { path: "A".to_owned(), rows }];
        },
    ];
    for spoil in wrong {
        let mut snapshot = index.to_snapshot();
        spoil(&mut snapshot);
        let restored = SymbolIndex::from_snapshot(snapshot).ok().unwrap();
        assert!(!restored.is_sound());
        assert_eq!(restored.definition_count(), 2, "it is read nevertheless");
    }
    assert!(SymbolIndex::from_snapshot(index.to_snapshot()).ok().unwrap().is_sound());
}

fn site(path: u32) -> StoredReference {
    StoredReference {
        path,
        range: r(1, 2, 1, 3),
        encoding: PositionEncoding::Utf16,
        is_import: false,
    }
}

#[test]
fn older_snapshot_duplicate_rows_are_normalized_on_read() {
    let occurrence = Occurrence { range: r(1, 2, 1, 3), symbol: 0 };
    let snapshot = IndexSnapshot {
        references: vec![ReferenceRows {
            symbol: "external symbol".to_owned(),
            rows: vec![site(0), site(0)],
        }],
        reference_paths: vec!["A.java".to_owned()],
        occurrences: vec![OccurrenceRows {
            path: "A.java".to_owned(),
            rows: vec![occurrence, occurrence],
        }],
        symbol_names: vec!["external symbol".to_owned()],
        symbol_ids: numbers(&["external symbol"]),
        ..empty_snapshot()
    };
    let restored = SymbolIndex::from_snapshot(snapshot).ok().unwrap();
    assert_eq!(restored.reference_count(), 1);
    assert_eq!(restored.occurrence_count(), 1);
}

#[test]
fn snapshot_rejects_an_invalid_reference_path_id() {
    let snapshot = IndexSnapshot {
        references: vec![ReferenceRows {
            symbol: "external symbol".to_owned(),
            rows: vec![site(1)],
        }],
        ..empty_snapshot()
    };
    let Err(error) = SymbolIndex::from_snapshot(snapshot) else {
        panic!("invalid path id should reject the snapshot");
    };
    assert_eq!(error, SnapshotError::InvalidReferencePath);
}

#[test]
fn names_and_numbers_are_read_as_they_are() {
    let at = |line: u32, symbol: usize| Occurrence { range: r(line, 0, line, 1), symbol };
    let snapshot = IndexSnapshot {
        references: vec![ReferenceRows {
            symbol: "twice".to_owned(),
            rows: vec![site(0), site(1), site(2), site(1)],
        }],
        reference_paths: vec!["A.java".to_owned(), "A.java".to_owned(), "B.java".to_owned()],
        occurrences: vec![OccurrenceRows {
            path: "A.java".to_owned(),
            rows: vec![at(1, 2), at(0, 0), at(0, 1), at(2, 3), at(0, 1)],
        }],
        symbol_names: vec!["twice".to_owned(), "twice".to_owned(), "once".to_owned()],
        ..empty_snapshot()
    };
    let index = SymbolIndex::from_snapshot(snapshot).ok().unwrap();
    assert_eq!(index.reference_path_count(), 3);
    assert_eq!(index.reference_count(), 3, "only what is repeated is left out");
    assert_eq!(index.occurrence_count(), 4);
    assert!(!index.is_sound());
}

#[test]
fn matches_of_one_length_are_ordered_by_path() {
    let mut index = SymbolIndex::new();
    for (symbol, name, path) in
        [("x/RetryA#", "RetryA", "b.java"), ("x/RetryB#", "RetryB", "a.java")]
    {
        let mut found = def(symbol, name);
        found.path = path.to_owned();
        index.insert(found);
    }
    let names: Vec<_> = index.search("retry").iter().map(|d| d.name.as_str()).collect();
    assert_eq!(names, ["RetryB", "RetryA"]);
}

#[test]
fn a_limited_search_is_the_filtered_search_cut_short() {
    let mut index = SymbolIndex::new();
    for name in ["RetryD", "RetryAlways", "DoRetry", "RetryC", "retry", "RetryB"] {
        index.insert(def(&format!("x/{name}#"), name));
    }
    let keep = |definition: &Definition| definition.name != "RetryC";
    let all: Vec<&str> = index
        .search("retry")
        .into_iter()
        .filter(|definition| keep(definition))
        .map(|definition| definition.name.as_str())
        .collect();
    assert_eq!(all, ["retry", "RetryB", "RetryD", "RetryAlways", "DoRetry"]);
    for limit in 0..7 {
        let (hits, total) = index.search_limited("retry", limit, &keep);
        let names: Vec<&str> = hits.iter().map(|hit| hit.name.as_str()).collect();
        assert_eq!(total, all.len());
        assert_eq!(names, all[..limit.min(all.len())]);
    }
}

#[test]
fn any_range_over_lines_is_wider_than_any_on_one() {
    assert!(span_len(&r(0, 0, 0, u32::MAX)) < span_len(&r(0, 0, 1, 0)));
    assert_eq!(span_len(&r(0, 0, 1, 0)), 1 << 32);
}

#[test]
fn what_no_callable_holds_is_no_call_of_one() {
    let mut index = SymbolIndex::new();
    let mut class = def("com/acme/A#", "A");
    class.path = "java/A.java".into();
    class.enclosing = Some(r(0, 0, 20, 1));
    index.insert(class);
    let mut snapshot = index.to_snapshot();
    snapshot.symbol_names = vec!["com/acme/B#make().".to_owned()];
    snapshot.symbol_ids = numbers(&["com/acme/B#make()."]);
    snapshot.occurrences = vec![OccurrenceRows {
        path: "java/A.java".to_owned(),
        rows: vec![Occurrence { range: r(2, 4, 2, 8), symbol: 0 }],
    }];
    let index = SymbolIndex::from_snapshot(snapshot).ok().unwrap();
    assert!(index.enclosing_callable("java/A.java", r(2, 4, 2, 8)).is_none());
    let span = r(0, 0, 20, 1);
    assert!(index.references_within_callable("java/A.java", span, "com/acme/A#").is_empty());
    assert_eq!(index.references_within("java/A.java", span).len(), 1);
}

/// A shard with a class that is used twice.
fn small_shard() -> Vec<u8> {
    let mut shard = Index::new();
    let mut document = scip::types::Document::new();
    document.relative_path = "src/A.java".to_owned();
    for (line, roles) in [(1, SymbolRole::Definition as i32), (3, 0), (5, 0)] {
        let mut occurrence = scip::types::Occurrence::new();
        occurrence.range = vec![line, 4, 8];
        occurrence.symbol = "x a/A#".to_owned();
        occurrence.symbol_roles = roles;
        document.occurrences.push(occurrence);
    }
    shard.documents.push(document);
    shard.write_to_bytes().unwrap()
}

fn counts(index: &SymbolIndex) -> [usize; 4] {
    [
        index.definition_count(),
        index.reference_count(),
        index.reference_path_count(),
        index.occurrence_count(),
    ]
}

#[test]
fn adding_a_shard_again_adds_nothing_but_a_shard() {
    let bytes = small_shard();
    let mut index = SymbolIndex::new();
    assert!(index.add_shard(&bytes));
    assert_eq!(counts(&index), [1, 2, 1, 3]);
    let rows = listed(&index, "x a/A#");
    assert!(index.add_shard(&bytes));
    assert_eq!(counts(&index), [1, 2, 1, 3]);
    assert_eq!(listed(&index, "x a/A#"), rows);
    assert_eq!(index.shard_count(), 2);

    let mut restored = SymbolIndex::from_snapshot(index.to_snapshot()).ok().unwrap();
    assert!(restored.add_shard(&bytes));
    assert_eq!(counts(&restored), [1, 2, 1, 3]);
    assert_eq!(listed(&restored, "x a/A#"), rows);
    assert_eq!(restored.shard_count(), 3);
}

#[test]
fn references_count_down_as_they_are_handed_out() {
    let mut index = SymbolIndex::new();
    assert!(index.add_shard(&small_shard()));
    let mut references = index.references("x a/A#");
    assert_eq!((references.len(), references.is_empty()), (2, false));
    assert_eq!(references.next().unwrap().range, r(3, 4, 3, 8));
    assert_eq!(references.len(), 1);
    assert_eq!(references.get(0).range, r(5, 4, 5, 8));
    assert_eq!(references.next().unwrap().range, r(5, 4, 5, 8));
    assert_eq!((references.len(), references.is_empty()), (0, true));
    assert!(references.next().is_none());
    assert_eq!(references.len(), 0);
}

#[test]
fn an_outer_callable_does_not_claim_calls_from_a_nested_callable() {
    let mut index = SymbolIndex::new();
    let mut outer = def("com/acme/A#outer().", "outer");
    outer.kind = SymbolKind::Method;
    outer.path = "java/A.java".into();
    outer.range = r(0, 5, 0, 10);
    outer.enclosing = Some(r(0, 0, 20, 1));
    let outer_symbol = outer.symbol.clone();
    index.insert(outer);

    let mut nested = def("com/acme/A$Nested#inner().", "inner");
    nested.kind = SymbolKind::Method;
    nested.path = "java/A.java".into();
    nested.range = r(5, 5, 5, 10);
    nested.enclosing = Some(r(5, 0, 10, 1));
    index.insert(nested);

    let mut snapshot = index.to_snapshot();
    snapshot.symbol_names =
        vec!["com/acme/B#outerCallee().".to_owned(), "com/acme/B#nestedCallee().".to_owned()];
    snapshot.symbol_ids = numbers(&["com/acme/B#outerCallee().", "com/acme/B#nestedCallee()."]);
    snapshot.occurrences = vec![OccurrenceRows {
        path: "java/A.java".to_owned(),
        rows: vec![
            Occurrence { range: r(2, 4, 2, 15), symbol: 0 },
            Occurrence { range: r(7, 4, 7, 16), symbol: 1 },
        ],
    }];
    let index = SymbolIndex::from_snapshot(snapshot).ok().unwrap();

    let calls = index.references_within_callable("java/A.java", r(0, 0, 20, 1), &outer_symbol);
    assert_eq!(calls, [("com/acme/B#outerCallee().", r(2, 4, 2, 15))]);
    let all = index.references_within("java/A.java", r(0, 0, 20, 1));
    assert_eq!(all.len(), 2);
    let callable = index.enclosing_callable("java/A.java", r(7, 4, 7, 16)).unwrap();
    assert_eq!(callable.name, "inner", "the innermost callable wins");
    assert_eq!(index.symbol_at("java/A.java", 2, 5), Some("com/acme/B#outerCallee()."));
}

#[test]
fn a_snapshot_gives_the_index_back() {
    let mut index = SymbolIndex::new();
    index.insert(def("com/acme/A#", "A"));
    index.insert(def("com/acme/B#", "B"));
    let restored = SymbolIndex::from_snapshot(index.to_snapshot()).ok().unwrap();
    assert_eq!(restored.definition_count(), 2);
    assert_eq!(restored.definition("com/acme/B#").unwrap().name, "B");
    assert_eq!(restored.shard_count(), index.shard_count());
    assert!(restored.has_relative_paths());
}

#[test]
fn an_index_of_absolute_paths_is_noticed() {
    let mut index = SymbolIndex::new();
    let mut outside = def("com/acme/A#", "A");
    outside.path = "/etc/A.java".to_owned();
    index.insert(outside);
    assert!(!index.has_relative_paths());
}
