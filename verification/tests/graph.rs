use std::collections::HashMap;

use oxidized_git::backend::parseable_info::{
    get_commit_info_list as backend_commit_info_list, get_svg_rows, svg_row_from_commit_info, CommitField,
    CommitFieldError,
};
use oxidized_git::backend::svg_row::{
    DrawProperty as BackendDrawProperty, RowLinkError, SVGRow as BackendRow, SVGRowProperty, SVGRowPropertyAttrs,
};
use oxidized_git::parseable_info::{
    draw_commit_graph, get_commit_info_list, get_commit_svg_draw_properties_list, CommitRecord, ParseableCommitInfo,
    SVGCommitInfoValue,
};
use oxidized_git::svg_row::{DrawProperty, LayoutError, RowProperty, SVGProperty, SVGPropertyAttrs, SVGRow};

fn strings(v: &[&str]) -> Vec<String> {
    v.iter().map(|s| s.to_string()).collect()
}

fn record(sha: &str, summary: &str, parents: &[&str]) -> CommitRecord {
    CommitRecord {
        sha: sha.to_string(),
        author_name: String::from("Ann"),
        author_time: String::from("Today 10:00"),
        summary: summary.to_string(),
        parent_shas: strings(parents),
    }
}

fn attr_int(attrs: &[(String, SVGPropertyAttrs)], key: &str) -> isize {
    for (k, v) in attrs {
        if k == key {
            if let SVGPropertyAttrs::SomeInt(i) = v {
                return *i;
            }
        }
    }
    panic!("no numeric attribute {}", key)
}

fn element_attrs(element: &[(String, SVGProperty)]) -> Vec<(String, SVGPropertyAttrs)> {
    for (k, v) in element {
        if k == "attrs" {
            if let SVGProperty::SomeHashMap(a) = v {
                return a.clone();
            }
        }
    }
    panic!("element without attributes")
}

#[test]
fn children_are_the_commits_that_name_a_parent() {
    let infos = get_commit_info_list(vec![
        record("c", "third", &["b"]),
        record("b", "second", &["a"]),
        record("x", "side", &["a"]),
        record("a", "first", &[]),
    ]);
    assert_eq!(infos.len(), 4);
    assert_eq!(*infos[3].borrow_child_shas(), strings(&["b", "x"]));
    assert_eq!(*infos[1].borrow_child_shas(), strings(&["c"]));
    assert!(infos[0].borrow_child_shas().is_empty());
    assert_eq!(*infos[2].borrow_y(), 2);
    assert_eq!(*infos[2].borrow_x(), 0);
}

#[test]
fn color_string_repeats_every_four_columns() {
    assert_eq!(SVGRow::get_color_string(0), "#00CC19");
    assert_eq!(SVGRow::get_color_string(1), "#0198A6");
    assert_eq!(SVGRow::get_color_string(2), "#FF7800");
    assert_eq!(SVGRow::get_color_string(3), "#FF0D00");
    assert_eq!(SVGRow::get_color_string(6), SVGRow::get_color_string(2));
    assert_eq!(SVGRow::get_color_string(-2), "#FF0D00");
}

fn linked_rows(infos: &[ParseableCommitInfo]) -> Vec<SVGRow> {
    let shas: Vec<String> = infos.iter().map(|c| c.borrow_sha().clone()).collect();
    let mut rows: Vec<SVGRow> = infos.iter().map(SVGRow::from_commit_info).collect();
    for r in rows.iter_mut() {
        r.set_parent_and_child_svg_row_values(&shas);
    }
    rows
}

#[test]
fn a_straight_history_stays_in_one_column() {
    let infos = get_commit_info_list(vec![record("b", "second", &["a"]), record("a", "first", &[])]);
    let mut rows = linked_rows(&infos);
    let table = SVGRow::get_occupied_table(&mut rows).ok().unwrap();
    assert_eq!(table, vec![vec![0], vec![0]]);
    assert_eq!(rows[0].x, 0);
    assert_eq!(rows[1].x, 0);
}

#[test]
fn a_branch_moves_to_the_next_free_column() {
    let infos = get_commit_info_list(vec![
        record("c", "on main", &["a"]),
        record("b", "on topic", &["a"]),
        record("a", "base", &[]),
    ]);
    let mut rows = linked_rows(&infos);
    let table = SVGRow::get_occupied_table(&mut rows).ok().unwrap();
    assert_eq!(rows[0].x, 0);
    assert_eq!(rows[1].x, 1);
    assert!(table[1].contains(&0));
    assert!(table[1].contains(&1));
}

#[test]
fn each_commit_holds_its_own_cell_once() {
    let infos = get_commit_info_list(vec![
        record("e", "tip", &["d"]),
        record("d", "merge", &["b", "c"]),
        record("c", "on topic", &["a"]),
        record("b", "on main", &["a"]),
        record("a", "base", &[]),
    ]);
    let mut rows = linked_rows(&infos);
    let table = SVGRow::get_occupied_table(&mut rows).ok().unwrap();
    for (k, row) in rows.iter().enumerate() {
        assert_eq!(row.y as usize, k);
        assert_eq!(table[k].iter().filter(|&&v| v == row.x).count(), 1);
    }
}

#[test]
fn rows_must_be_linked_before_layout() {
    let infos = get_commit_info_list(vec![record("a", "first", &[])]);
    let mut rows: Vec<SVGRow> = infos.iter().map(SVGRow::from_commit_info).collect();
    let e = SVGRow::get_occupied_table(&mut rows).err().unwrap();
    assert!(matches!(e, LayoutError::LinksNotSet));
    assert_eq!(
        e.message(),
        "SVGRow object didn't have parents or children set. Make sure 'set_parent_and_child_svg_row_values' is run before 'get_occupied_table'!"
    );
}

#[test]
fn a_link_to_a_missing_row_is_refused() {
    let infos = get_commit_info_list(vec![record("a", "first", &[])]);
    let mut rows = linked_rows(&infos);
    rows[0].parent_svg_rows = vec![3];
    assert!(matches!(SVGRow::try_occupied_table(&mut rows), Err(LayoutError::InvalidLink)));
}

#[test]
fn the_checked_layout_matches_the_plain_one() {
    let infos = get_commit_info_list(vec![
        record("c", "on main", &["a"]),
        record("b", "on topic", &["a"]),
        record("a", "base", &[]),
    ]);
    let mut plain = linked_rows(&infos);
    let mut checked = linked_rows(&infos);
    let t1 = SVGRow::get_occupied_table(&mut plain).ok().unwrap();
    let t2 = SVGRow::try_occupied_table(&mut checked).ok().unwrap();
    assert_eq!(t1, t2);
    assert_eq!(plain.iter().map(|r| r.x).collect::<Vec<_>>(), checked.iter().map(|r| r.x).collect::<Vec<_>>());
}

#[test]
fn a_commit_that_is_its_own_parent_cannot_be_drawn() {
    let infos = get_commit_info_list(vec![record("a", "loop", &["a"])]);
    assert!(matches!(draw_commit_graph(infos, vec![]), Err(LayoutError::InvalidLink)));
}

#[test]
fn a_row_too_far_down_cannot_be_drawn() {
    let mut infos = get_commit_info_list(vec![record("a", "first", &[])]);
    infos[0].y = isize::MAX;
    assert!(matches!(draw_commit_graph(infos, vec![]), Err(LayoutError::TooLarge)));
}

#[test]
fn the_checked_drawing_matches_the_plain_one() {
    let infos = get_commit_info_list(vec![record("b", "second", &["a"]), record("a", "first", &[])]);
    let refs = vec![(String::from("b"), vec![(String::from("* main"), String::from("local"))])];
    let checked = draw_commit_graph(infos.clone(), refs.clone()).ok().unwrap();
    let plain = get_commit_svg_draw_properties_list(infos, refs);
    assert_eq!(checked.svg_row_draw_properties.len(), plain.svg_row_draw_properties.len());
    assert_eq!(checked.branch_draw_properties.len(), plain.branch_draw_properties.len());
    assert!(matches!(&checked.svg_row_draw_properties[1][1], (k, RowProperty::SomeInt(44)) if k == "pixel_y"));
}

#[test]
fn the_graph_drawing_places_circles_by_row() {
    let infos = get_commit_info_list(vec![record("b", "second", &["a"]), record("a", "first", &[])]);
    let refs = vec![(String::from("b"), vec![(String::from("* main"), String::from("local"))])];
    let drawing = get_commit_svg_draw_properties_list(infos, refs);
    assert_eq!(drawing.svg_row_draw_properties.len(), 2);
    let second = &drawing.svg_row_draw_properties[1];
    assert!(matches!(&second[0], (k, RowProperty::SomeString(s)) if k == "sha" && s == "a"));
    assert!(matches!(&second[1], (k, RowProperty::SomeInt(44)) if k == "pixel_y"));
    match &second[2].1 {
        RowProperty::SomeHashMap(elements) => {
            match &elements[1].1 {
                DrawProperty::SomeHashMap(circle) => {
                    let attrs = element_attrs(circle);
                    assert_eq!(attr_int(&attrs, "cx"), 20);
                    assert_eq!(attr_int(&attrs, "cy"), 44);
                },
                _ => panic!("the circle is a single element"),
            }
            match &elements[0].1 {
                DrawProperty::SomeVector(lines) => assert_eq!(lines.len(), 1),
                _ => panic!("child lines are a list"),
            }
        },
        _ => panic!("elements are named entries"),
    }
    assert_eq!(drawing.branch_draw_properties.len(), 1);
    assert_eq!(drawing.branch_draw_properties[0].0, "b");
    assert_eq!(drawing.branch_draw_properties[0].1.len(), 1);
}

#[test]
fn branch_labels_have_a_text_and_a_coloured_rectangle() {
    let labels = SVGRow::get_branch_draw_properties(vec![
        (String::from("main"), String::from("local")),
        (String::from("v1"), String::from("tag")),
    ]);
    assert_eq!(labels.len(), 2);
    assert_eq!(labels[0].len(), 2);
    let rect_attrs = element_attrs(&labels[1][1]);
    let style = rect_attrs.iter().find(|(k, _)| k == "style").unwrap();
    assert!(matches!(&style.1, SVGPropertyAttrs::SomeString(s) if s == "fill:grey;fill-opacity:0.5;"));
}

fn backend_row(sha: &str, parents: &[&str], children: &[&str], x: isize, y: isize) -> BackendRow {
    BackendRow::new(
        sha.to_string(),
        format!("summary of {}", sha),
        vec![(String::from("main"), String::from("local"))],
        strings(parents),
        strings(children),
        x,
        y,
    )
}

#[test]
fn linked_rows_are_found_by_sha() {
    let row = backend_row("b", &["a"], &["c", "d"], 0, 1);
    let shas = strings(&["c", "b", "a", "d"]);
    assert_eq!(row.get_parent_or_child_svg_row_values(&shas, "parents").ok().unwrap(), vec![2]);
    assert_eq!(row.get_parent_or_child_svg_row_values(&shas, "children").ok().unwrap(), vec![0, 3]);
    assert!(matches!(row.get_parent_or_child_svg_row_values(&shas, "siblings"), Err(RowLinkError::UnknownKind)));
    let missing = strings(&["b", "a"]);
    assert!(matches!(row.get_parent_or_child_svg_row_values(&missing, "children"), Err(RowLinkError::MissingRow)));
}

fn backend_attr_int(attrs: &[(String, SVGRowPropertyAttrs)], key: &str) -> isize {
    for (k, v) in attrs {
        if k == key {
            if let SVGRowPropertyAttrs::SomeInt(i) = v {
                return *i;
            }
        }
    }
    panic!("no numeric attribute {}", key)
}

fn backend_attrs(element: &[(String, SVGRowProperty)]) -> Vec<(String, SVGRowPropertyAttrs)> {
    for (k, v) in element {
        if k == "attrs" {
            if let SVGRowProperty::SomeHashMap(a) = v {
                return a.iter().map(|(k, v)| (k.clone(), match v {
                    SVGRowPropertyAttrs::SomeInt(i) => SVGRowPropertyAttrs::SomeInt(*i),
                    SVGRowPropertyAttrs::SomeString(s) => SVGRowPropertyAttrs::SomeString(s.clone()),
                })).collect();
            }
        }
    }
    panic!("element without attributes")
}

#[test]
fn a_taken_cell_moves_the_commit_right() {
    let mut table: HashMap<isize, HashMap<isize, bool>> = HashMap::new();
    let mut first = backend_row("a", &[], &[], 0, 0);
    first.get_draw_properties(&mut table, &vec![], &vec![]);
    assert_eq!(first.x, 0);
    let mut second = backend_row("b", &[], &[], 0, 0);
    let drawn = second.get_draw_properties(&mut table, &vec![], &vec![]);
    assert_eq!(second.x, 1);
    assert_eq!(table.get(&0).unwrap().get(&1), Some(&true));
    match &drawn[1] {
        BackendDrawProperty::SomeHashMap(circle) => {
            let attrs = backend_attrs(circle);
            assert_eq!(backend_attr_int(&attrs, "cx"), 40);
            assert_eq!(backend_attr_int(&attrs, "cy"), 20);
        },
        _ => panic!("the circle is a single element"),
    }
    match &drawn[2] {
        BackendDrawProperty::SomeVectorVector(labels) => {
            assert_eq!(labels.len(), 1);
            assert!(matches!(&labels[0][0][3], (k, SVGRowProperty::SomeInt(1)) if k == "largestXValue"));
        },
        _ => panic!("labels are groups"),
    }
}

#[test]
fn lines_to_parents_take_their_column() {
    let mut table: HashMap<isize, HashMap<isize, bool>> = HashMap::new();
    let parent = backend_row("p", &[], &[], 0, 3);
    let mut child = backend_row("c", &["p"], &[], 2, 0);
    child.get_draw_properties(&mut table, &vec![parent], &vec![]);
    assert_eq!(table.get(&1).unwrap().get(&2), Some(&true));
    assert_eq!(table.get(&2).unwrap().get(&2), Some(&true));
    assert!(table.get(&3).is_none());
}

#[test]
fn child_lines_come_down_to_the_row() {
    let mut table: HashMap<isize, HashMap<isize, bool>> = HashMap::new();
    let near = backend_row("n", &[], &[], 0, 1);
    let far = backend_row("f", &[], &[], 1, 0);
    let mut row = backend_row("r", &[], &["n", "f"], 0, 2);
    let drawn = row.get_draw_properties(&mut table, &vec![], &vec![near, far]);
    match &drawn[0] {
        BackendDrawProperty::SomeVector(lines) => assert_eq!(lines.len(), 3),
        _ => panic!("child lines are a list"),
    }
}

#[test]
fn commit_records_round_trip_to_rows() {
    let refs = vec![(String::from("b"), vec![(String::from("main"), String::from("local"))])];
    let records = backend_commit_info_list(vec![record("b", "second", &["a"]), record("a", "first", &[])], &refs);
    assert_eq!(records.len(), 2);
    assert_eq!(records[0][0].0, "oid");
    let rows = get_svg_rows(&records).ok().unwrap();
    assert_eq!(rows[0].sha, "b");
    assert_eq!(rows[0].branches_and_tags, vec![(String::from("main"), String::from("local"))]);
    assert_eq!(rows[1].child_oids, strings(&["b"]));
    assert!(rows[1].branches_and_tags.is_empty());
    assert_eq!(rows[1].y, 1);
}

#[test]
fn commit_records_with_missing_or_mistyped_values_are_refused() {
    let missing = vec![(String::from("oid"), SVGCommitInfoValue::SomeString(String::from("a")))];
    assert!(matches!(svg_row_from_commit_info(&missing), Err(CommitFieldError::Missing(CommitField::Summary))));
    let mistyped = vec![(String::from("oid"), SVGCommitInfoValue::SomeInt(3))];
    assert!(matches!(svg_row_from_commit_info(&mistyped), Err(CommitFieldError::WrongKind(CommitField::Oid))));
    assert!(matches!(get_svg_rows(&vec![missing]), Err(CommitFieldError::Missing(CommitField::Summary))));
}
