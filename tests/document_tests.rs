use calyx_lsp::convert::{Point, Range};
use calyx_lsp::document::{Context, Document, Things};
use calyx_lsp::goto_definition::{Frontier, Location, QueryResult};
use calyx_lsp::symbols::SymbolCache;
use calyx_lsp::syntax::{SyntaxNode, SyntaxTree};
use calyx_lsp::text::newline_split;

const MAIN_TEXT: &str = "import \"adder.futil\";
component main(in: 32) -> (out: 32) {
  cells {
    a = Adder();
  }
  wires {
    group g {
      a.left = in;
      g[done] = a.out;
    }
    out = in;
  }
  control {
    g;
  }
}
";

const MAIN_OUTLINE: &str = "
source_file 0:0-16:0
  import 0:0-0:21
    import 0:0-0:6
    string 0:7-0:20 \"adder.futil\"
    ; 0:20-0:21
  component 1:0-15:1
    component 1:0-1:9
    ident 1:10-1:14 main
    signature 1:14-1:35
      io_port_list 1:14-1:22
        io_port 1:15-1:21
          ident 1:15-1:17 in
          bitwidth 1:19-1:21 32
      io_port_list 1:26-1:35
        io_port 1:27-1:34
          ident 1:27-1:30 out
          bitwidth 1:32-1:34 32
    cells 2:2-4:3
      cell_assignment 3:4-3:16
        ident 3:4-3:5 a
        = 3:6-3:7
        instantiation 3:8-3:15
          ident 3:8-3:13 Adder
          ( 3:13-3:14
          ) 3:14-3:15
        ; 3:15-3:16
    wires 5:2-11:3
      wires_inner 6:4-10:13
        group 6:4-9:5
          group 6:4-6:9
          ident 6:10-6:11 g
          assignment 7:6-7:18
            port 7:6-7:12
              ident 7:6-7:7 a
              . 7:7-7:8
              ident 7:8-7:12 left
            = 7:13-7:14
            port 7:15-7:17
              ident 7:15-7:17 in
            ; 7:17-7:18
          assignment 8:6-8:22
            hole 8:6-8:13
              ident 8:6-8:7 g
              [ 8:7-8:8
              ident 8:8-8:12 done
              ] 8:12-8:13
            = 8:14-8:15
            port 8:16-8:21
              ident 8:16-8:17 a
              . 8:17-8:18
              ident 8:18-8:21 out
            ; 8:21-8:22
        assignment 10:4-10:13
          port 10:4-10:7
            ident 10:4-10:7 out
          = 10:8-10:9
          port 10:10-10:12
            ident 10:10-10:12 in
          ; 10:12-10:13
    control 12:2-14:3
      enable 13:4-13:6
        ident 13:4-13:5 g
        ; 13:5-13:6
";

const ADDER_TEXT: &str = "primitive Adder(left: 32, right: 32) -> (out: 32);
";

const ADDER_OUTLINE: &str = "
source_file 0:0-1:0
  primitive 0:0-0:50
    primitive 0:0-0:9
    ident 0:10-0:15 Adder
    signature 0:15-0:49
      io_port_list 0:15-0:36
        io_port 0:16-0:24
          ident 0:16-0:20 left
          bitwidth 0:22-0:24 32
        , 0:24-0:25
        io_port 0:26-0:35
          ident 0:26-0:31 right
          bitwidth 0:33-0:35 32
      io_port_list 0:40-0:49
        io_port 0:41-0:48
          ident 0:41-0:44 out
          bitwidth 0:46-0:48 32
    ; 0:49-0:50
";

fn point(s: &str) -> Point {
    let mut it = s.split(':');
    let row = it.next().unwrap().parse().unwrap();
    let column = it.next().unwrap().parse().unwrap();
    Point::new(row, column)
}

/// Builds the nodes of a tree from an outline: one node per line, two
/// spaces of indentation per level, then the kind, the range and the text.
fn nodes_of(outline: &str) -> Vec<SyntaxNode> {
    let mut nodes = Vec::new();
    for line in outline.lines() {
        if line.trim().is_empty() {
            continue;
        }
        let depth = (line.len() - line.trim_start().len()) / 2;
        let mut parts = line.trim_start().splitn(3, ' ');
        let kind = parts.next().unwrap().to_string();
        let range = parts.next().unwrap();
        let text = parts.next().unwrap_or("").to_string();
        let mut ends = range.split('-');
        let start = point(ends.next().unwrap());
        let end = point(ends.next().unwrap());
        nodes.push(SyntaxNode { kind, text, start, end, depth });
    }
    nodes
}

fn tree_of(outline: &str) -> SyntaxTree {
    SyntaxTree::from_preorder(nodes_of(outline)).unwrap()
}

fn main_doc() -> Document {
    Document::new_with_text("file:///work/main.futil".to_string(), MAIN_TEXT, tree_of(MAIN_OUTLINE))
}

fn adder_doc() -> Document {
    Document::new_with_text(
        "file:///lib/adder.futil".to_string(),
        ADDER_TEXT,
        tree_of(ADDER_OUTLINE),
    )
}

fn found_items(r: QueryResult<Vec<(String, String)>, String>) -> Vec<(String, String)> {
    match r {
        QueryResult::Found(v) => v,
        QueryResult::ContinueSearch(_, c) => panic!("search goes on for {c}"),
    }
}

fn pairs(v: &[(&str, &str)]) -> Vec<(String, String)> {
    v.iter().map(|(a, b)| (a.to_string(), b.to_string())).collect()
}

fn found_location(r: Option<QueryResult<Location, String>>) -> Location {
    match r {
        Some(QueryResult::Found(l)) => l,
        _ => panic!("no location"),
    }
}

fn range(a: &str, b: &str) -> Range {
    Range::new(point(a), point(b))
}

#[test]
fn outline_matches_text() {
    let lines = newline_split(MAIN_TEXT);
    for n in nodes_of(MAIN_OUTLINE) {
        if n.start.row == n.end.row && !n.text.is_empty() {
            let line: Vec<char> = lines[n.start.row].chars().collect();
            let piece: String = line[n.start.column..n.end.column].iter().collect();
            assert_eq!(piece, n.text);
        }
    }
}

#[test]
fn tree_rejects_bad_depths() {
    let mut nodes = nodes_of(MAIN_OUTLINE);
    nodes[3].depth = 5;
    assert!(SyntaxTree::from_preorder(nodes).is_none());
    assert!(SyntaxTree::from_preorder(Vec::new()).is_none());
    let mut nodes = nodes_of(MAIN_OUTLINE);
    nodes[0].depth = 1;
    assert!(SyntaxTree::from_preorder(nodes).is_none());
}

#[test]
fn table_of_main() {
    let doc = main_doc();
    let table = doc.component_table();
    assert_eq!(table.len(), 1);
    assert_eq!(table[0].0, "main");
    let info = &table[0].1;
    assert_eq!(info.inputs, vec!["in".to_string()]);
    assert_eq!(info.outputs, vec!["out".to_string()]);
    assert_eq!(info.cells, pairs(&[("a", "Adder")]));
    assert_eq!(info.groups, vec!["g".to_string()]);
}

#[test]
fn table_includes_primitives() {
    let doc = adder_doc();
    let table = doc.component_table();
    assert_eq!(table.len(), 1);
    assert_eq!(table[0].0, "Adder");
    assert_eq!(table[0].1.inputs, vec!["left".to_string(), "right".to_string()]);
    assert_eq!(table[0].1.outputs, vec!["out".to_string()]);
    assert!(table[0].1.cells.is_empty());
}

#[test]
fn parsing_twice_gives_equal_tables() {
    let a = main_doc();
    let b = main_doc();
    assert_eq!(a.component_table(), b.component_table());
}

#[test]
fn identical_change_twice_does_not_accumulate() {
    let mut doc = main_doc();
    let first = doc.component_table().clone();
    doc.parse_whole_text(MAIN_TEXT, tree_of(MAIN_OUTLINE));
    doc.parse_whole_text(MAIN_TEXT, tree_of(MAIN_OUTLINE));
    assert_eq!(doc.component_table(), &first);
    assert_eq!(doc.component_table().len(), 1);
}

#[test]
fn reparse_replaces_old_table() {
    let mut doc = main_doc();
    doc.parse_whole_text(ADDER_TEXT, tree_of(ADDER_OUTLINE));
    assert_eq!(doc.component_table().len(), 1);
    assert_eq!(doc.component_table()[0].0, "Adder");
    assert_eq!(doc.text(), ADDER_TEXT);
}

#[test]
fn later_duplicate_component_wins() {
    let outline = "
source_file 0:0-2:0
  component 0:0-0:20
    ident 0:10-0:11 X
    cells 0:12-0:20
      cell_assignment 0:13-0:19
        ident 0:13-0:14 a
        instantiation 0:15-0:19
          ident 0:15-0:16 P
  component 1:0-1:20
    ident 1:10-1:11 X
    cells 1:12-1:20
      cell_assignment 1:13-1:19
        ident 1:13-1:14 b
        instantiation 1:15-1:19
          ident 1:15-1:16 Q
      cell_assignment 1:13-1:19
        ident 1:13-1:14 b
        instantiation 1:15-1:19
          ident 1:15-1:16 R
";
    let doc = Document::new_with_text("u".to_string(), "", tree_of(outline));
    let table = doc.component_table();
    assert_eq!(table.len(), 1);
    assert_eq!(table[0].1.cells, pairs(&[("b", "R")]));
}

#[test]
fn raw_imports_strip_quotes() {
    assert_eq!(main_doc().raw_imports(), vec!["adder.futil".to_string()]);
    assert!(adder_doc().raw_imports().is_empty());
}

#[test]
fn resolved_imports_in_priority_order() {
    let doc = main_doc();
    let libs = vec!["/lib".to_string()];
    assert_eq!(
        doc.resolved_imports("/work", &libs),
        vec!["/work/adder.futil".to_string(), "/lib/adder.futil".to_string()]
    );
}

#[test]
fn symbol_cache_replaces_a_file_whole() {
    let mut cache = SymbolCache::new();
    let url = "file:///lib/adder.futil".to_string();
    cache.update(url.clone(), adder_doc().signatures());
    assert_eq!(cache.signatures_of(&url).unwrap().len(), 1);
    cache.update(url.clone(), main_doc().signatures());
    let sigs = cache.signatures_of(&url).unwrap();
    assert_eq!(sigs.len(), 1);
    assert_eq!(sigs[0].0, "main");
    assert!(cache.signatures_of(&"other".to_string()).is_none());
}

#[test]
fn component_names_in_order() {
    assert_eq!(main_doc().component_names(), vec!["main".to_string()]);
    assert_eq!(adder_doc().component_names(), vec!["Adder".to_string()]);
}

#[test]
fn signatures_of_primitive() {
    let sigs = adder_doc().signatures();
    assert_eq!(sigs.len(), 1);
    assert_eq!(sigs[0].0, "Adder");
    assert_eq!(sigs[0].1.inputs, vec!["left".to_string(), "right".to_string()]);
    assert_eq!(sigs[0].1.outputs, vec!["out".to_string()]);
}

#[test]
fn unparsed_document_answers_nothing() {
    let doc = Document::new("u".to_string());
    assert!(doc.node_at_point(&Point::zero()).is_none());
    assert!(doc.thing_at_point(Point::zero()).is_none());
    assert_eq!(doc.context_at_point(&Point::zero()), Context::Toplevel);
    assert!(doc.component_table().is_empty());
}

#[test]
fn node_at_point_finds_smallest() {
    let doc = main_doc();
    let n = doc.node_at_point(&Point::new(7, 9)).unwrap();
    assert_eq!(doc.node_text(n), "left");
    assert!(doc.node_at_point(&Point::new(40, 0)).is_none());
}

#[test]
fn cell_reference_resolves_to_assignment() {
    let doc = main_doc();
    let thing = doc.thing_at_point(Point::new(7, 6)).unwrap();
    match &thing {
        Things::Cell(_, name) => assert_eq!(name, "a"),
        other => panic!("{other:?}"),
    }
    let loc = found_location(doc.find_thing(thing, &Vec::new()));
    assert_eq!(loc.uri, "file:///work/main.futil");
    assert_eq!(loc.range, range("3:4", "3:5"));
}

#[test]
fn self_port_resolves_to_signature() {
    let doc = main_doc();
    let thing = doc.thing_at_point(Point::new(10, 11)).unwrap();
    match &thing {
        Things::SelfPort(_, name) => assert_eq!(name, "in"),
        other => panic!("{other:?}"),
    }
    let loc = found_location(doc.find_thing(thing, &Vec::new()));
    assert_eq!(loc.range, range("1:15", "1:17"));
}

#[test]
fn port_after_cell_is_nothing() {
    let doc = main_doc();
    assert!(doc.thing_at_point(Point::new(7, 9)).is_none());
}

#[test]
fn group_references_resolve() {
    let doc = main_doc();
    for p in [Point::new(13, 4), Point::new(8, 6)] {
        let thing = doc.thing_at_point(p).unwrap();
        match &thing {
            Things::Group(_, name) => assert_eq!(name, "g"),
            other => panic!("{other:?}"),
        }
        let loc = found_location(doc.find_thing(thing, &Vec::new()));
        assert_eq!(loc.range, range("6:10", "6:11"));
    }
}

#[test]
fn unknown_cell_is_unresolved() {
    let doc = main_doc();
    let node = doc.node_at_point(&Point::new(7, 6)).unwrap();
    assert!(doc.find_cell(node, "zzz".to_string()).is_none());
    assert!(doc.find_group(node, "zzz".to_string()).is_none());
    assert!(doc.find_self_port(node, "zzz".to_string()).is_none());
}

#[test]
fn import_reference_resolves_to_file_start() {
    let doc = main_doc();
    let thing = doc.thing_at_point(Point::new(0, 9)).unwrap();
    match &thing {
        Things::Import(_, path) => assert_eq!(path, "adder.futil"),
        other => panic!("{other:?}"),
    }
    let targets = vec!["/lib/adder.futil".to_string()];
    let loc = found_location(doc.find_thing(thing.clone(), &targets));
    assert_eq!(loc.uri, "file:///lib/adder.futil");
    assert_eq!(loc.range, Range::zero());
    assert!(doc.find_thing(thing, &Vec::new()).is_none());
}

#[test]
fn component_found_across_files() {
    let main = main_doc();
    let adder = adder_doc();
    let thing = main.thing_at_point(Point::new(3, 9)).unwrap();
    match &thing {
        Things::Component(name) => assert_eq!(name, "Adder"),
        other => panic!("{other:?}"),
    }
    let paths = vec!["/lib/adder.futil".to_string()];
    let first = main.find_thing(thing, &paths).unwrap();
    let (rest, key) = match first {
        QueryResult::ContinueSearch(rest, key) => (rest, key),
        QueryResult::Found(_) => panic!("Adder is not declared here"),
    };
    assert_eq!(rest, paths);
    assert_eq!(key, "Adder");
    let mut frontier = Frontier::new(&rest);
    let next = frontier.next_path().unwrap();
    assert_eq!(next, "/lib/adder.futil");
    let answer = frontier.absorb(adder.find_component(key, &Vec::new())).unwrap();
    assert_eq!(answer.uri, "file:///lib/adder.futil");
    assert_eq!(answer.range, range("0:10", "0:15"));
}

#[test]
fn local_component_found_here() {
    let adder = adder_doc();
    match adder.find_component("Adder".to_string(), &Vec::new()) {
        QueryResult::Found(l) => assert_eq!(l.range, range("0:10", "0:15")),
        QueryResult::ContinueSearch(..) => panic!("declared here"),
    }
}

#[test]
fn contexts_by_section() {
    let doc = main_doc();
    assert_eq!(doc.context_at_point(&Point::new(3, 6)), Context::Cells);
    assert_eq!(doc.context_at_point(&Point::new(7, 9)), Context::Group);
    assert_eq!(doc.context_at_point(&Point::new(10, 5)), Context::Wires);
    assert_eq!(doc.context_at_point(&Point::new(13, 4)), Context::Control);
    assert_eq!(doc.context_at_point(&Point::new(1, 16)), Context::Component);
    assert_eq!(doc.context_at_point(&Point::new(0, 3)), Context::Toplevel);
    assert_eq!(doc.context_at_point(&Point::new(40, 0)), Context::Toplevel);
}

#[test]
fn component_end_points_count_as_inside() {
    let doc = main_doc();
    assert_eq!(doc.context_at_point(&Point::new(15, 1)), Context::Component);
    assert_eq!(doc.context_at_point(&Point::new(1, 0)), Context::Component);
    assert_eq!(doc.context_at_point(&Point::new(15, 2)), Context::Toplevel);
    let outline = "
source_file 0:0-1:0
  component 0:0-0:10
    ident 0:2-0:3 C
";
    let small = Document::new_with_text("u".to_string(), "", tree_of(outline));
    assert_eq!(small.context_at_point(&Point::new(0, 10)), Context::Component);
    assert_eq!(small.context_at_point(&Point::new(0, 0)), Context::Component);
}

#[test]
fn primitive_counts_as_component_region() {
    let doc = adder_doc();
    assert_eq!(doc.context_at_point(&Point::new(0, 17)), Context::Component);
    assert_eq!(doc.context_at_point(&Point::new(0, 50)), Context::Component);
}

#[test]
fn tree_rejects_child_outside_parent() {
    let outline = "
source_file 0:0-1:0
  component 0:0-0:10
    ident 0:2-0:12 C
";
    assert!(SyntaxTree::from_preorder(nodes_of(outline)).is_none());
    assert!(SyntaxTree::from_preorder(nodes_of(MAIN_OUTLINE)).is_some());
}

#[test]
fn region_edges_count_as_inside() {
    let doc = main_doc();
    assert_eq!(doc.context_at_point(&Point::new(6, 4)), Context::Group);
    assert_eq!(doc.context_at_point(&Point::new(12, 2)), Context::Control);
}

#[test]
fn no_thing_between_identifiers_but_a_context() {
    let doc = main_doc();
    let dot = Point::new(7, 7);
    assert!(doc.thing_at_point(dot).is_none());
    assert_eq!(doc.context_at_point(&dot), Context::Group);
    let blank = Point::new(3, 2);
    assert!(doc.thing_at_point(blank).is_none());
    assert_eq!(doc.context_at_point(&blank), Context::Cells);
}

#[test]
fn every_point_gets_a_context() {
    let doc = main_doc();
    let lines = newline_split(MAIN_TEXT);
    for (row, line) in lines.iter().enumerate() {
        for column in 0..=line.len() {
            let _ = doc.context_at_point(&Point::new(row, column));
        }
    }
}

#[test]
fn completion_after_dot_offers_ports() {
    let main = main_doc();
    let adder = adder_doc();
    let imports = vec!["/lib/adder.futil".to_string()];
    let r = main.completion_at_point(Point::new(7, 8), Some(".".to_string()), &imports);
    let (paths, comp) = match r {
        QueryResult::ContinueSearch(paths, comp) => (paths, comp),
        QueryResult::Found(v) => panic!("{v:?}"),
    };
    assert_eq!(paths, imports);
    assert_eq!(comp, "Adder");
    let items = found_items(adder.port_completions(comp, &Vec::new()));
    assert_eq!(items, pairs(&[("left", "input"), ("right", "input"), ("out", "output")]));
}

#[test]
fn completion_after_dot_with_local_component() {
    let adder = adder_doc();
    let items = found_items(adder.port_completions("Adder".to_string(), &Vec::new()));
    assert_eq!(items, pairs(&[("left", "input"), ("right", "input"), ("out", "output")]));
    match adder.port_completions("Nope".to_string(), &vec!["/x".to_string()]) {
        QueryResult::ContinueSearch(p, c) => {
            assert_eq!(p, vec!["/x".to_string()]);
            assert_eq!(c, "Nope");
        },
        QueryResult::Found(v) => panic!("{v:?}"),
    }
}

#[test]
fn completion_in_cells_lists_components() {
    let doc = main_doc();
    let items = found_items(doc.completion_at_point(Point::new(3, 8), None, &Vec::new()));
    assert_eq!(items, pairs(&[("main", "component")]));
}

#[test]
fn completion_in_group_lists_cells_and_holes() {
    let doc = main_doc();
    let items = found_items(doc.completion_at_point(Point::new(7, 9), None, &Vec::new()));
    assert_eq!(
        items,
        pairs(&[("a", "cell"), ("g[go]", "hole"), ("g[done]", "hole"), ("g", "hole")])
    );
}

#[test]
fn completion_in_wires_lists_cells() {
    let doc = main_doc();
    let items = found_items(doc.completion_at_point(Point::new(10, 5), None, &Vec::new()));
    assert_eq!(items, pairs(&[("a", "cell")]));
}

#[test]
fn completion_in_control_lists_groups() {
    let doc = main_doc();
    let items = found_items(doc.completion_at_point(Point::new(13, 5), None, &Vec::new()));
    assert_eq!(items, pairs(&[("g", "group")]));
}

#[test]
fn completion_without_a_word_before_the_cursor_is_empty() {
    let doc = main_doc();
    assert!(found_items(doc.completion_at_point(Point::new(13, 4), None, &Vec::new())).is_empty());
    assert!(found_items(doc.completion_at_point(Point::new(3, 4), None, &Vec::new())).is_empty());
}

#[test]
fn completion_at_top_level_is_empty() {
    let doc = main_doc();
    assert!(found_items(doc.completion_at_point(Point::new(0, 3), None, &Vec::new())).is_empty());
    let sig = doc.completion_at_point(Point::new(1, 16), Some(".".to_string()), &Vec::new());
    assert!(found_items(sig).is_empty());
}

#[test]
fn completion_after_dot_on_unknown_cell_is_empty() {
    let doc = main_doc();
    let r = doc.completion_at_point(Point::new(8, 7), Some(".".to_string()), &Vec::new());
    assert!(found_items(r).is_empty());
}

#[test]
fn completion_items_are_tagged() {
    let doc = main_doc();
    let items = found_items(doc.completion_at_point(Point::new(13, 5), None, &Vec::new()));
    assert!(!items.is_empty());
    assert!(items.iter().all(|(_, k)| k == "group"));
}
