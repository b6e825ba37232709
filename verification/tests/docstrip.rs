use rustminify::docstrip::{
    classify_attr, classify_entry, lint_entry_kept, strip_doc_attrs, strip_docs, AttrModel,
    LintEntry, LintLevel, MetaNode,
};

fn same_attrs(a: &[AttrModel], b: &[AttrModel]) -> bool {
    a.len() == b.len()
        && a.iter().zip(b.iter()).all(|(x, y)| match (x, y) {
            (AttrModel::Doc, AttrModel::Doc) => true,
            (AttrModel::Other, AttrModel::Other) => true,
            (AttrModel::Lint(l1, e1), AttrModel::Lint(l2, e2)) => l1 == l2 && e1 == e2,
            _ => false,
        })
}

#[test]
fn doc_attrs_dropped() {
    let attrs = vec![AttrModel::Doc, AttrModel::Other, AttrModel::Doc];
    let stripped = strip_doc_attrs(&attrs);
    assert!(same_attrs(&stripped, &[AttrModel::Other]));
}

#[test]
fn deny_missing_docs_becomes_empty() {
    // A `deny(missing_docs)` directive keeps its level, with an empty list.
    let attrs = vec![AttrModel::Lint(LintLevel::Deny, vec![LintEntry::MissingDocs])];
    let stripped = strip_doc_attrs(&attrs);
    assert!(same_attrs(&stripped, &[AttrModel::Lint(LintLevel::Deny, vec![])]));
}

#[test]
fn other_lint_entries_kept_in_order() {
    let attrs = vec![AttrModel::Lint(
        LintLevel::Warn,
        vec![
            LintEntry::Other,
            LintEntry::MissingDocs,
            LintEntry::Other,
            LintEntry::MissingCrateDocs,
        ],
    )];
    let stripped = strip_doc_attrs(&attrs);
    assert!(same_attrs(
        &stripped,
        &[AttrModel::Lint(
            LintLevel::Warn,
            vec![LintEntry::Other, LintEntry::Other]
        )]
    ));
}

#[test]
fn strip_is_idempotent() {
    let attrs = vec![
        AttrModel::Doc,
        AttrModel::Lint(
            LintLevel::Forbid,
            vec![LintEntry::MissingCrateDocs, LintEntry::Other],
        ),
        AttrModel::Other,
        AttrModel::Lint(LintLevel::Warn, vec![LintEntry::MissingDocs]),
    ];
    let once = strip_doc_attrs(&attrs);
    let twice = strip_doc_attrs(&once);
    assert!(same_attrs(&once, &twice));
}

#[test]
fn classify_doc_attribute() {
    let r = classify_attr(true, &Some("doc".to_string()), false, &Vec::new());
    assert!(matches!(r, AttrModel::Doc));
    let r = classify_attr(true, &Some("doc".to_string()), true, &Vec::new());
    assert!(matches!(r, AttrModel::Doc));
}

#[test]
fn classify_unparsed_is_other() {
    let r = classify_attr(false, &Some("doc".to_string()), false, &Vec::new());
    assert!(matches!(r, AttrModel::Other));
}

#[test]
fn classify_lint_levels() {
    let entries = vec![
        Some("missing_docs".to_string()),
        None,
        Some("missing_crate_level_docs".to_string()),
        Some("dead_code".to_string()),
    ];
    let r = classify_attr(true, &Some("warn".to_string()), true, &entries);
    match r {
        AttrModel::Lint(LintLevel::Warn, es) => {
            assert_eq!(
                es,
                vec![
                    LintEntry::MissingDocs,
                    LintEntry::Other,
                    LintEntry::MissingCrateDocs,
                    LintEntry::Other
                ]
            );
        }
        _ => panic!("expected a lint directive"),
    }
    assert!(matches!(
        classify_attr(true, &Some("deny".to_string()), true, &Vec::new()),
        AttrModel::Lint(LintLevel::Deny, _)
    ));
    assert!(matches!(
        classify_attr(true, &Some("forbid".to_string()), true, &Vec::new()),
        AttrModel::Lint(LintLevel::Forbid, _)
    ));
}

#[test]
fn classify_non_list_lint_is_other() {
    // `#[warn]` without a list is not a lint directive for the stripper.
    let r = classify_attr(true, &Some("warn".to_string()), false, &Vec::new());
    assert!(matches!(r, AttrModel::Other));
}

#[test]
fn classify_unknown_path_is_other() {
    let r = classify_attr(true, &Some("allow".to_string()), true, &Vec::new());
    assert!(matches!(r, AttrModel::Other));
    let r = classify_attr(true, &None, true, &Vec::new());
    assert!(matches!(r, AttrModel::Other));
}

#[test]
fn classify_entries() {
    assert_eq!(
        classify_entry(&Some("missing_docs".to_string())),
        LintEntry::MissingDocs
    );
    assert_eq!(
        classify_entry(&Some("missing_crate_level_docs".to_string())),
        LintEntry::MissingCrateDocs
    );
    assert_eq!(classify_entry(&Some("dead_code".to_string())), LintEntry::Other);
    assert_eq!(classify_entry(&None), LintEntry::Other);
}

#[test]
fn kept_entries() {
    assert!(!lint_entry_kept(&LintEntry::MissingDocs));
    assert!(!lint_entry_kept(&LintEntry::MissingCrateDocs));
    assert!(lint_entry_kept(&LintEntry::Other));
}

fn same_node(a: &MetaNode, b: &MetaNode) -> bool {
    same_attrs(&a.attrs, &b.attrs)
        && a.children.len() == b.children.len()
        && a.children.iter().zip(b.children.iter()).all(|(x, y)| same_node(x, y))
}

#[test]
fn strip_docs_tree_recurses() {
    // A module-like node with a documented child: the child's entry goes,
    // the parent's lint directive is emptied, the shape stays.
    let tree = MetaNode {
        attrs: vec![AttrModel::Lint(LintLevel::Deny, vec![LintEntry::MissingDocs])],
        children: vec![
            MetaNode {
                attrs: vec![AttrModel::Doc, AttrModel::Other],
                children: vec![],
            },
            MetaNode {
                attrs: vec![AttrModel::Doc],
                children: vec![MetaNode {
                    attrs: vec![AttrModel::Doc],
                    children: vec![],
                }],
            },
        ],
    };
    let stripped = strip_docs(&tree);
    let expected = MetaNode {
        attrs: vec![AttrModel::Lint(LintLevel::Deny, vec![])],
        children: vec![
            MetaNode {
                attrs: vec![AttrModel::Other],
                children: vec![],
            },
            MetaNode {
                attrs: vec![],
                children: vec![MetaNode {
                    attrs: vec![],
                    children: vec![],
                }],
            },
        ],
    };
    assert!(same_node(&stripped, &expected));
}

#[test]
fn strip_docs_tree_idempotent() {
    let tree = MetaNode {
        attrs: vec![AttrModel::Doc],
        children: vec![MetaNode {
            attrs: vec![AttrModel::Lint(
                LintLevel::Warn,
                vec![LintEntry::Other, LintEntry::MissingCrateDocs],
            )],
            children: vec![],
        }],
    };
    let once = strip_docs(&tree);
    let twice = strip_docs(&once);
    assert!(same_node(&once, &twice));
}
