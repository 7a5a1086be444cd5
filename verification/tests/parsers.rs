use indentex::parsers::Environment;
use indentex::parsers::Hashline;

#[test]
fn itemline_helper() {
    assert_eq!(
        indentex::parsers::itemline_helper("  ", "foo"),
        Hashline::PlainLine("  \\item foo".to_string())
    );
    // Test that no whitespace is put after `\item` if no item is given
    assert_eq!(
        indentex::parsers::itemline_helper(" ", ""),
        Hashline::PlainLine(" \\item".to_string())
    );
}

#[test]
fn process_itemline() {
    // Valid itemlines
    assert_eq!(
        indentex::parsers::process_itemline("*"),
        Some(Hashline::PlainLine("\\item".to_string()))
    );
    assert_eq!(
        indentex::parsers::process_itemline("*  "),
        Some(Hashline::PlainLine("\\item".to_string()))
    );
    assert_eq!(
        indentex::parsers::process_itemline("  *"),
        Some(Hashline::PlainLine("  \\item".to_string()))
    );
    assert_eq!(
        indentex::parsers::process_itemline("  *  "),
        Some(Hashline::PlainLine("  \\item".to_string()))
    );
    assert_eq!(
        indentex::parsers::process_itemline("* foo"),
        Some(Hashline::PlainLine("\\item foo".to_string()))
    );
    assert_eq!(
        indentex::parsers::process_itemline("  * bar"),
        Some(Hashline::PlainLine("  \\item bar".to_string()))
    );
    assert_eq!(
        indentex::parsers::process_itemline("****"),
        Some(Hashline::PlainLine("\\item ***".to_string()))
    );

    // Not an itemline
    assert_eq!(indentex::parsers::process_itemline("  baz"), None);
    assert_eq!(indentex::parsers::process_itemline("qux *"), None);
    assert_eq!(indentex::parsers::process_itemline("  abc * def"), None);
    assert_eq!(indentex::parsers::process_itemline("  \\*  "), None);
    assert_eq!(indentex::parsers::process_itemline("\\*  "), None);
}

#[test]
fn environment_methods() {
    let env_1 = Environment {
        indent_depth: 0,
        name: "foo".to_string(),
        opts: "bar".to_string(),
        comment: "% baz".to_string(),
        is_list_like: true,
    };

    assert_eq!(env_1.latex_begin(), "\\begin{foo}bar % baz");
    assert_eq!(env_1.latex_end(), "\\end{foo}");
    assert_eq!(env_1.is_list_like(), true);
    assert_eq!(env_1.indent_depth(), 0);

    let env_2 = Environment {
        indent_depth: 2,
        name: "abc".to_string(),
        opts: "def".to_string(),
        comment: "".to_string(),
        is_list_like: false,
    };

    assert_eq!(env_2.latex_begin(), "  \\begin{abc}def");
    assert_eq!(env_2.latex_end(), "  \\end{abc}");
    assert_eq!(env_2.is_list_like(), false);
    assert_eq!(env_2.indent_depth(), 2);
}

#[test]
fn process_line_directives() {
    // A hash-directive with arguments is a single-line command
    assert_eq!(
        indentex::parsers::process_line("# section: Foo", false),
        Hashline::PlainLine("\\section{Foo}".to_string())
    );
    // An item-directive converts only when a list-like environment is active
    assert_eq!(
        indentex::parsers::process_line("  * x", true),
        Hashline::PlainLine("  \\item x".to_string())
    );
    assert_eq!(
        indentex::parsers::process_line("  * x", false),
        Hashline::PlainLine("  * x".to_string())
    );
    // A hash-directive without arguments opens an environment
    match indentex::parsers::process_line("  # quote [opt]: % note", false) {
        Hashline::OpenEnv(env) => {
            assert_eq!(env.indent_depth, 2);
            assert_eq!(env.name, "quote");
            assert_eq!(env.opts, "[opt]");
            assert_eq!(env.comment, "% note");
            assert_eq!(env.is_list_like, false);
        }
        Hashline::PlainLine(_) => panic!("expected an environment"),
    }
}

#[test]
fn list_like_names_exact() {
    // Exactly itemize, enumerate and description are list-like; a starred
    // variant is not.
    let cases = vec![
        ("itemize", true),
        ("enumerate", true),
        ("description", true),
        ("itemize*", false),
        ("item", false),
        ("foobar", false),
    ];
    for (name, expected) in cases {
        let line = format!("# {}:", name);
        match indentex::parsers::process_line(&line, false) {
            Hashline::OpenEnv(env) => assert_eq!(env.is_list_like, expected),
            Hashline::PlainLine(_) => panic!("expected an environment"),
        }
    }
}
