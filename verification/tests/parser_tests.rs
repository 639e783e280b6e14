use orgrun::code_doc::DOC_NODE_ROOT_ID;
use orgrun::org_parser::{parse_org_doc, DocParseError};

fn to_lines(doc_str: &str) -> Vec<String> {
    doc_str.lines().map(|l| l.to_string()).collect()
}

#[test]
fn parse_test1() {
    let doc_str = r###"
#+TITLE: Test Doc

this is intro.
#+BEGIN_SRC bash
intro src
#+END_SRC

* header 1
h1 body
** header 2.1
h2.1 body
#+begin_src bash
bash code
#+end_src
hehe
** header 2.2
h2.2 body

"###;
    let lines = to_lines(doc_str);
    let doc = parse_org_doc(&lines, "doc_root".to_string(), "bash").unwrap();
    assert_eq!(doc.len(), 4);

    let nodes = doc.lookup_nodes(DOC_NODE_ROOT_ID, &["2.1"]);
    assert_eq!(nodes.len(), 1);
    let codes = doc.get_runnable_code(nodes[0]);
    assert_eq!(codes.len(), 1);

    assert_eq!(
        codes[0].fullname,
        vec!["doc_root", "header 1", "header 2.1"]
    );

    assert_eq!(
        codes[0].code.join("\n"),
        r###"intro src
bash code"###
    );
}

#[test]
fn parse_test2() {
    let doc_str = r###"
#+TITLE: Test Doc

this is intro.
#+BEGIN_SRC
intro src
#+END_SRC

* header 1
h1 body
** header 2.1
h2.1 body
#+begin_src
shell code
#+end_src
hehe
** header 2.2
h2.2 body

"###;
    let lines = to_lines(doc_str);
    let doc = parse_org_doc(&lines, "doc_root".to_string(), "bash").unwrap();
    assert_eq!(doc.len(), 4);

    let nodes = doc.lookup_nodes(DOC_NODE_ROOT_ID, &["2.1"]);
    assert_eq!(nodes.len(), 1);
    let codes = doc.get_runnable_code(nodes[0]);
    assert_eq!(codes.len(), 1);

    assert_eq!(
        codes[0].fullname,
        vec!["doc_root", "header 1", "header 2.1"]
    );

    assert_eq!(
        codes[0].code.join("\n"),
        r###"intro src
shell code"###
    );
}

#[test]
fn parse_default_interpreter_tagged() {
    // the substituted default names the same language a written tag would
    let untagged = to_lines("#+BEGIN_SRC\nbody\n#+END_SRC\n* j\n#+BEGIN_SRC bash\nown\n#+END_SRC");
    let doc = parse_org_doc(&untagged, "root".to_string(), "bash").unwrap();
    let nodes = doc.lookup_nodes(DOC_NODE_ROOT_ID, &["j"]);
    assert_eq!(nodes.len(), 1);
    let codes = doc.get_runnable_code(nodes[0]);
    assert_eq!(codes.len(), 1);
    assert_eq!(codes[0].interpreter, "bash");
    assert_eq!(codes[0].code, vec!["body", "own"]);
}

#[test]
fn parse_unclosed_block() {
    let doc_str = r###"* header 1
#+BEGIN_SRC bash
echo hi
"###;
    let lines = to_lines(doc_str);
    let err = parse_org_doc(&lines, "doc_root".to_string(), "bash").unwrap_err();
    // the error reports the fence-open line, not the end of the file
    assert_eq!(
        err,
        DocParseError::BlockNotClosed {
            linum: 2,
            line: "#+BEGIN_SRC bash".to_string()
        }
    );
}

#[test]
fn parse_unexpected_level() {
    let doc_str = r###"* header 1
*** too deep
"###;
    let lines = to_lines(doc_str);
    let err = parse_org_doc(&lines, "doc_root".to_string(), "bash").unwrap_err();
    assert_eq!(
        err,
        DocParseError::UnexpectedLevel {
            linum: 2,
            line: "*** too deep".to_string()
        }
    );
}

#[test]
fn parse_unexpected_line() {
    let doc_str = r###"* header 1
#+END_SRC
"###;
    let lines = to_lines(doc_str);
    let err = parse_org_doc(&lines, "doc_root".to_string(), "bash").unwrap_err();
    assert_eq!(
        err,
        DocParseError::UnexpectedLine {
            linum: 2,
            line: "#+END_SRC".to_string()
        }
    );
}

#[test]
fn parse_deep_then_shallow() {
    // a heading may climb back up any number of levels at once
    let lines = to_lines("* a\n** b\n*** c\n* d\n** e");
    let doc = parse_org_doc(&lines, "doc_root".to_string(), "bash").unwrap();
    assert_eq!(doc.len(), 6);
    // indices in pre-order: 1 doc_root, 2 a, 3 b, 4 c, 5 d, 6 e
    assert_eq!(doc.get_fullname(4), vec!["doc_root", "a", "b", "c"]);
    assert_eq!(doc.get_fullname(6), vec!["doc_root", "d", "e"]);
    assert_eq!(doc.get_parent(5), Some(1));
}

#[test]
fn parse_empty_document() {
    let lines: Vec<String> = Vec::new();
    let doc = parse_org_doc(&lines, "doc_root".to_string(), "bash").unwrap();
    // only the flushed title node, with no code
    assert_eq!(doc.len(), 1);
    assert_eq!(doc.get_node(1).name(), "doc_root");
    assert_eq!(doc.get_node(1).level(), 0);
    assert_eq!(doc.get_runnable_code(1).len(), 0);
}

#[test]
fn parse_fence_decoration_ignored() {
    let lines = to_lines("* j\n#+BEGIN_SRC python :results output\nprint(1)\n#+END_SRC trailing words");
    let doc = parse_org_doc(&lines, "doc_root".to_string(), "bash").unwrap();
    let nodes = doc.lookup_nodes(DOC_NODE_ROOT_ID, &["j"]);
    let codes = doc.get_runnable_code(nodes[0]);
    assert_eq!(codes.len(), 1);
    assert_eq!(codes[0].interpreter, "python");
    assert_eq!(codes[0].code, vec!["print(1)"]);
}
