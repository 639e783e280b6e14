use orgrun::code_doc::{CodeBlock, CodeDoc, DOC_NODE_ROOT_ID};

#[test]
fn doc_lookup_nodes1() {
    let mut doc = CodeDoc::new();
    let h1 = doc.add(DOC_NODE_ROOT_ID, "header1".to_string(), 1, Vec::new());
    let h2 = doc.add(h1, "header2".to_string(), 2, Vec::new());
    let sec = doc.add(h2, "section1".to_string(), 3, Vec::new());
    let matches = doc.lookup_nodes(DOC_NODE_ROOT_ID, &["der2", "tion"]);
    assert_eq!(matches, vec![sec]);
}

fn doc1() -> CodeDoc {
    let mut doc = CodeDoc::new();
    let h1 = doc.add(DOC_NODE_ROOT_ID, "header1".to_string(), 1, Vec::new());
    let h2 = doc.add(h1, "header2".to_string(), 2, Vec::new());
    let _h2_1 = doc.add(h1, "header2_1".to_string(), 2, Vec::new());
    let _sec1 = doc.add(h2, "section1".to_string(), 3, Vec::new());
    let _sec2 = doc.add(h2, "section1".to_string(), 3, Vec::new());
    return doc;
}

#[test]
fn doc_lookup_nodes2() {
    let doc = doc1();
    let matches = doc.lookup_nodes(DOC_NODE_ROOT_ID, &["der2", "tion"]);
    assert_eq!(matches, vec![4, 5]);
}

#[test]
fn doc_lookup_nodes3() {
    let doc = doc1();
    let matches = doc.lookup_nodes(DOC_NODE_ROOT_ID, &vec!["header"]);
    assert_eq!(matches, vec![1, 2, 3]);
}

#[test]
fn doc_lookup_nodes4() {
    let doc = doc1();
    let matches = doc.lookup_nodes(DOC_NODE_ROOT_ID, &vec![]);
    assert_eq!(matches, vec![]);
}

#[test]
fn doc_lookup_empty_query_non_root() {
    let doc = doc1();
    let matches = doc.lookup_nodes(2, &[]);
    assert_eq!(matches, vec![2]);
}

#[test]
fn doc_get_code1() {
    let mut doc = CodeDoc::new();
    let h1 = doc.add(
        DOC_NODE_ROOT_ID,
        "header1".to_string(),
        1,
        vec![
            CodeBlock {
                interpreter: "bash".to_string(),
                code: "h1".to_string(),
            },
            CodeBlock {
                interpreter: "bash".to_string(),
                code: "code".to_string(),
            },
        ],
    );
    let h2 = doc.add(
        h1,
        "header2".to_string(),
        2,
        vec![
            CodeBlock {
                interpreter: "python".to_string(),
                code: "h2".to_string(),
            },
            CodeBlock {
                interpreter: "bash".to_string(),
                code: "code".to_string(),
            },
        ],
    );
    let sec = doc.add(
        h2,
        "section1".to_string(),
        3,
        vec![
            CodeBlock {
                interpreter: "bash".to_string(),
                code: "sec1".to_string(),
            },
            CodeBlock {
                interpreter: "bash".to_string(),
                code: "body".to_string(),
            },
        ],
    );
    let code = doc.get_runnable_code(sec);
    assert_eq!(code.len(), 1);
    assert_eq!(code[0].code.join(""), "h1codecodesec1body");
}

#[test]
fn doc_get_code_two_languages() {
    let mut doc = CodeDoc::new();
    let h1 = doc.add(
        DOC_NODE_ROOT_ID,
        "setup".to_string(),
        1,
        vec![CodeBlock {
            interpreter: "bash".to_string(),
            code: "outer".to_string(),
        }],
    );
    let job = doc.add(
        h1,
        "job".to_string(),
        2,
        vec![
            CodeBlock {
                interpreter: "python".to_string(),
                code: "py".to_string(),
            },
            CodeBlock {
                interpreter: "bash".to_string(),
                code: "inner".to_string(),
            },
        ],
    );
    let code = doc.get_runnable_code(job);
    // one record per language of the node's own blocks, first-appearance order
    assert_eq!(code.len(), 2);
    assert_eq!(code[0].interpreter, "python");
    assert_eq!(code[0].code, vec!["py"]);
    assert_eq!(code[1].interpreter, "bash");
    assert_eq!(code[1].code, vec!["outer", "inner"]);
    assert_eq!(code[0].fullname, vec!["setup", "job"]);
}

#[test]
fn doc_ancestors_descendants() {
    let doc = doc1();
    // indices: 1 header1, 2 header2, 3 header2_1, 4 section1, 5 section1
    assert_eq!(doc.get_ancestors(4), vec![1, 2]);
    assert_eq!(doc.get_ancestors(1), Vec::<usize>::new());
    assert_eq!(doc.get_descendants(1), vec![2, 3, 4, 5]);
    assert_eq!(doc.get_descendants(2), vec![4, 5]);
    assert_eq!(doc.get_descendants(3), Vec::<usize>::new());
    assert!(doc.is_anscestor(1, 5));
    assert!(doc.is_anscestor(2, 4));
    assert!(!doc.is_anscestor(3, 4));
    assert!(!doc.is_anscestor(4, 2));
}

#[test]
fn doc_fullname_and_parents() {
    let doc = doc1();
    assert_eq!(doc.get_fullname(4), vec!["header1", "header2", "section1"]);
    assert_eq!(doc.get_parent(4), Some(2));
    assert_eq!(doc.get_parent(DOC_NODE_ROOT_ID), None);
    assert_eq!(doc.len(), 5);
    // nesting invariant, concretely: every node sits under a shallower one
    for n in 1..=doc.len() {
        let p = doc.get_parent(n).unwrap();
        let pl = if p == DOC_NODE_ROOT_ID {
            -1
        } else {
            doc.get_node(p).level()
        };
        assert!(pl < doc.get_node(n).level());
    }
}
