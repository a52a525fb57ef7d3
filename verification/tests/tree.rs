use kyute::tree::{NodeKey, Tree};

/// Builds a tree from a description such as `A(BC)`: a letter is a node,
/// parentheses enclose the children of the node before them.
fn tree(desc: &'static str) -> Tree<char> {
    let mut tree = Tree::new();
    let mut stack: Vec<NodeKey> = vec![];
    let mut last: Option<NodeKey> = None;
    for p in desc.chars() {
        match p {
            '(' => {
                stack.push(last.unwrap());
            }
            ')' => {
                last = stack.pop();
            }
            name => {
                let mut node = tree.create(name);
                if let Some(parent) = stack.last() {
                    node = tree.insert_as_child(node, *parent);
                }
                last = Some(node);
            }
        }
    }
    tree
}

fn dump_node(tree: &Tree<char>, node: NodeKey, result: &mut String) {
    result.push(*tree.get(node).unwrap());
    if tree.child_count(node) > 0 {
        result.push('(');
        let mut current = tree.first_child(node);
        while let Some(child) = current {
            dump_node(tree, child, result);
            current = tree.next_sibling(child);
        }
        result.push(')');
    }
}

fn dump_tree(tree: &Tree<char>) -> String {
    let mut result = String::new();
    for root in tree.orphans() {
        dump_node(tree, root, &mut result);
    }
    result
}

fn dump_names(tree: &Tree<&'static str>, node: NodeKey, indent: usize, out: &mut Vec<String>) {
    out.push(format!("{}{}", "  ".repeat(indent), tree.get(node).unwrap()));
    let mut current = tree.first_child(node);
    while let Some(child) = current {
        dump_names(tree, child, indent + 1, out);
        current = tree.next_sibling(child);
    }
}

#[test]
fn structures() {
    let t1 = tree("A(BCD)");
    assert_eq!(dump_tree(&t1), "A(BCD)");

    let t2 = tree("A(B(CD)E)");
    assert_eq!(dump_tree(&t2), "A(B(CD)E)");

    let t3 = tree("A(B(CD)EF(GHI)JK(LM(NO)PQ))");
    assert_eq!(dump_tree(&t3), "A(B(CD)EF(GHI)JK(LM(NO)PQ))");
}

#[test]
fn basic() {
    let mut tree = Tree::new();
    let root = tree.create("Root");
    let c = tree.create("Child 1");
    let child_1 = tree.insert_as_child(c, root);
    let c = tree.create("Child 1.1");
    let _child_1_1 = tree.insert_as_child(c, child_1);
    let c = tree.create("Child 2");
    let child_2 = tree.insert_as_child(c, root);
    let c = tree.create("Child 2.1");
    let child_2_1 = tree.insert_as_child(c, child_2);
    let c = tree.create("Child 2.1.1");
    let child_2_1_1 = tree.insert_as_child(c, child_2_1);
    let c = tree.create("Child 3");
    let child_3 = tree.insert_as_child(c, root);
    let c = tree.create("Child 3.1");
    let _child_3_1 = tree.insert_as_child(c, child_3);
    let c = tree.create("Child 3.2");
    let _child_3_2 = tree.insert_as_child(c, child_3);
    let c = tree.create("Child 3.3");
    let _child_3_3 = tree.insert_as_child(c, child_3);
    let c = tree.create("Child 3.4");
    let child_3_4 = tree.insert_as_child(c, child_3);
    let c = tree.create("Child 3.4.1");
    let _child_3_4_1 = tree.insert_as_child(c, child_3_4);
    let c = tree.create("Child 4");
    let _child_4 = tree.insert_as_child(c, root);

    println!("== Dump: ==");
    let mut lines = Vec::new();
    dump_names(&tree, root, 0, &mut lines);
    println!("{}", lines.join("\n"));

    println!("== Ancestors of Child 2.1.1: ==");
    let ancestors = tree.ancestors(child_2_1_1).into_iter().map(|a| *a).collect::<Vec<_>>();
    assert_eq!(ancestors, vec!["Child 2.1", "Child 2", "Root"]);
    println!("{:?}", ancestors);

    println!("=== Remove Child 3 ===");
    tree.remove(child_3).unwrap();
    let mut lines = Vec::new();
    dump_names(&tree, root, 0, &mut lines);
    println!("{}", lines.join("\n"));
}

#[test]
fn remove_takes_the_whole_subtree() {
    let mut t = tree("A(B(CD)E)");
    let a = t.orphans()[0];
    let b = t.first_child(a).unwrap();
    assert_eq!(t.len(), 5);
    assert_eq!(t.remove(b), Some('B'));
    assert_eq!(t.len(), 2);
    assert_eq!(dump_tree(&t), "A(E)");
    // a removed node is gone
    assert_eq!(t.remove(b), None);
    assert!(!t.contains(b));
}

#[test]
fn detach_makes_a_root() {
    let mut t = tree("A(BC)");
    let a = t.orphans()[0];
    let b = t.first_child(a).unwrap();
    t.detach(b);
    assert_eq!(t.parent(b), None);
    assert_eq!(t.child_count(a), 1);
    assert_eq!(*t.get(t.first_child(a).unwrap()).unwrap(), 'C');
    let mut roots: Vec<char> = t.orphans().into_iter().map(|k| *t.get(k).unwrap()).collect();
    roots.sort();
    assert_eq!(roots, vec!['A', 'B']);
}

#[test]
fn insert_as_child_moves_a_node() {
    let mut t = tree("A(BC)");
    let a = t.orphans()[0];
    let b = t.first_child(a).unwrap();
    let c = t.next_sibling(b).unwrap();
    // moving B under C keeps B's position consistent
    t.insert_as_child(b, c);
    assert_eq!(dump_tree(&t), "A(C(B))");
    assert_eq!(t.parent(b), Some(c));
    assert_eq!(t.next_sibling(c), None);
    assert_eq!(t.children(a), vec![c]);
}

#[test]
fn replace_value_keeps_links() {
    let mut t = tree("A(B)");
    let a = t.orphans()[0];
    let b = t.first_child(a).unwrap();
    assert_eq!(t.replace_value(b, 'Z'), 'B');
    assert_eq!(dump_tree(&t), "A(Z)");
    assert_eq!(t.ancestors(b).into_iter().map(|x| *x).collect::<Vec<_>>(), vec!['A']);
}
