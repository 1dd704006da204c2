use light_assembler::{lines_to_string, CellTree, DbgInfo, DbgNode, DbgPos, Line};

fn pos(file: &str, line: usize) -> DbgPos {
    DbgPos { filename: file.to_string(), line }
}

#[test]
fn line_new_keeps_text_and_position() {
    let l = Line::new("NOP\n", "x.code", 7);
    assert_eq!(l.text, "NOP\n");
    assert_eq!(l.pos.filename, "x.code");
    assert_eq!(l.pos.line, 7);
}

#[test]
fn lines_are_joined_without_separator() {
    let a = vec![Line::new("A\n", "f", 1), Line::new("B", "f", 2)];
    let b = vec![Line::new("C\n", "g", 1)];
    assert_eq!(lines_to_string(&a), "A\nB");
    let mut ab = a.clone();
    ab.extend(b.iter().cloned());
    assert_eq!(lines_to_string(&ab), lines_to_string(&a) + &lines_to_string(&b));
    assert_eq!(lines_to_string(&vec![]), "");
}

#[test]
fn position_text() {
    assert_eq!(pos("", 0).to_string(), "<none>:0");
    assert_eq!(pos("main.code", 120).to_string(), "main.code:120");
    assert_eq!(DbgPos::default().to_string(), "<none>:0");
}

#[test]
fn node_from_holds_one_position() {
    let n = DbgNode::from(pos("a", 3));
    assert_eq!(n.offsets.len(), 1);
    assert_eq!(n.offsets[&0], pos("a", 3));
    assert!(n.children.is_empty());
    assert!(DbgNode::new().offsets.is_empty());
}

#[test]
fn append_replaces_position_at_offset() {
    let mut n = DbgNode::new();
    n.append(8, pos("a", 1));
    n.append(8, pos("a", 2));
    n.append(0, pos("a", 3));
    assert_eq!(n.offsets.len(), 2);
    assert_eq!(n.offsets[&8], pos("a", 2));
}

#[test]
fn inline_node_shifts_offsets() {
    let mut n = DbgNode::from(pos("a", 1));
    let mut inner = DbgNode::new();
    inner.append(0, pos("b", 5));
    inner.append(16, pos("b", 6));
    n.inline_node(8, inner);
    let got: Vec<(usize, usize)> = n.offsets.iter().map(|(k, p)| (*k, p.line)).collect();
    assert_eq!(got, vec![(0, 1), (8, 5), (24, 6)]);
}

#[test]
fn inlining_single_position_is_appending() {
    let mut a = DbgNode::from(pos("a", 1));
    let mut b = DbgNode::from(pos("a", 1));
    a.inline_node(32, DbgNode::from(pos("c", 9)));
    b.append(32, pos("c", 9));
    assert_eq!(a.offsets, b.offsets);
}

#[test]
fn append_node_adds_child() {
    let mut n = DbgNode::new();
    n.append_node(DbgNode::from(pos("a", 1)));
    n.append_node(DbgNode::new());
    assert_eq!(n.children.len(), 2);
    assert_eq!(n.children[0].offsets[&0], pos("a", 1));
}

#[test]
fn node_text_lists_positions_in_order() {
    let mut n = DbgNode::new();
    n.append(16, pos("f", 2));
    n.append(0, pos("", 1));
    n.append_node(DbgNode::new());
    assert_eq!(n.to_string(), "0:<none>:1\n16:f:2\n1 children");
    assert_eq!(DbgNode::new().to_string(), "0 children");
}

#[test]
fn info_new_is_empty() {
    assert!(DbgInfo::new().map.is_empty());
}

#[test]
fn info_maps_each_cell_hash_to_its_node() {
    let leaf = CellTree { hash: "BB".to_string(), references: vec![] };
    let leaf2 = CellTree { hash: "CC".to_string(), references: vec![] };
    let root = CellTree { hash: "AA".to_string(), references: vec![leaf, leaf2] };
    let mut node = DbgNode::from(pos("r", 1));
    node.append_node(DbgNode::from(pos("l", 2)));
    let mut second = DbgNode::new();
    second.append(8, pos("m", 3));
    node.append_node(second);
    let info = DbgInfo::from(&root, &node);
    assert_eq!(info.map.len(), 3);
    assert_eq!(info.map["AA"][&0], pos("r", 1));
    assert_eq!(info.map["BB"][&0], pos("l", 2));
    assert_eq!(info.map["CC"][&8], pos("m", 3));
}
