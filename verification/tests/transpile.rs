use indentex::transpile::TranspileOptions;

fn lines_of(xs: &[&str]) -> Vec<String> {
    let mut v: Vec<String> = Vec::new();
    for x in xs {
        v.push(x.to_string());
    }
    v
}

fn plain() -> TranspileOptions {
    TranspileOptions { flatten_output: false, prepend_do_not_edit_notice: false }
}

fn flat() -> TranspileOptions {
    TranspileOptions { flatten_output: true, prepend_do_not_edit_notice: false }
}

#[test]
fn count_left_indent() {
    assert_eq!(indentex::transpile::count_left_indent(""), None);
    assert_eq!(indentex::transpile::count_left_indent("foo"), Some(0));
    assert_eq!(indentex::transpile::count_left_indent("  bar"), Some(2));
    // We assume that the input has no trailing whitespaces
    // This is not a bug (but not a nice behaviour either)
    assert_eq!(indentex::transpile::count_left_indent("   "), Some(3));
}

#[test]
fn scan_indents() {
    // Always add a zero at the end
    let a = lines_of(&[" a"]);
    assert_eq!(indentex::transpile::scan_indents(&a), [1, 0]);
    assert_eq!(indentex::transpile::scan_indents(&a).capacity(), 2);
    // Indents are propagated backwards
    let b = lines_of(&["  b", "b", "", "  b"]);
    assert_eq!(indentex::transpile::scan_indents(&b), [2, 0, 2, 2, 0]);
    assert_eq!(indentex::transpile::scan_indents(&b).capacity(), 5);
    // We assume that the input has no trailing whitespaces
    // This is not a bug (but not a nice behaviour either)
    let c = lines_of(&["", "   "]);
    assert_eq!(indentex::transpile::scan_indents(&c), [3, 3, 0]);
    assert_eq!(indentex::transpile::scan_indents(&c).capacity(), 3);

    let d = lines_of(&["d", " d", "", " d", "", "   d", "  d", "     d"]);
    assert_eq!(indentex::transpile::scan_indents(&d), [0, 1, 1, 1, 3, 3, 2, 5, 0]);
    assert_eq!(indentex::transpile::scan_indents(&d).capacity(), 9);
}

#[test]
fn transpile_do_not_edit_notice() {
    let options = TranspileOptions { flatten_output: false, prepend_do_not_edit_notice: true };

    assert_eq!(
        indentex::transpile::transpile(&lines_of(&["Test"]), &options),
        "% ============================================================== %\n%                                                                %\n% THIS IS AN AUTOGENERATED FILE. DO NOT EDIT THIS FILE DIRECTLY. %\n%                                                                %\n% ============================================================== %\nTest\n"
    );
}

#[test]
fn transpile_single_line_cmds() {
    let options = plain();

    // Colon
    assert_eq!(
        indentex::transpile::transpile(&lines_of(&["# section: Foo bar"]), &options),
        "\\section{Foo bar}\n"
    );
    assert_eq!(
        indentex::transpile::transpile(&lines_of(&["# section: Foo: bar"]), &options),
        "\\section{Foo: bar}\n"
    );
    assert_eq!(
        indentex::transpile::transpile(&lines_of(&["# section [Foo bar]: Foo bar"]), &options),
        "\\section[Foo bar]{Foo bar}\n"
    );
    assert_eq!(
        indentex::transpile::transpile(&lines_of(&["# section [Foo\\: bar]: Foo: bar"]), &options),
        "\\section[Foo: bar]{Foo: bar}\n"
    );

    // Asterisk
    assert_eq!(
        indentex::transpile::transpile(&lines_of(&["# section* : spam eggs"]), &options),
        "\\section*{spam eggs}\n"
    );

    // Percent
    assert_eq!(
        indentex::transpile::transpile(&lines_of(&["# section: foo bar % test"]), &options),
        "\\section{foo bar} % test\n"
    );
    assert_eq!(
        indentex::transpile::transpile(&lines_of(&["# section: \\% baz % test"]), &options),
        "\\section{\\% baz} % test\n"
    );
    assert_eq!(
        indentex::transpile::transpile(&lines_of(&["# sec%tion: foo bar"]), &options),
        "# sec%tion: foo bar\n"
    );
    assert_eq!(
        indentex::transpile::transpile(&lines_of(&["# section % baz: foo bar"]), &options),
        "# section % baz: foo bar\n"
    );

    // Do not convert
    assert_eq!(
        indentex::transpile::transpile(&lines_of(&["# section"]), &options),
        "# section\n"
    );
    assert_eq!(
        indentex::transpile::transpile(&lines_of(&["#section: Foo"]), &options),
        "#section: Foo\n"
    );
    assert_eq!(
        indentex::transpile::transpile(&lines_of(&["\\# section"]), &options),
        "\\# section\n"
    );
    assert_eq!(
        indentex::transpile::transpile(&lines_of(&["%# section"]), &options),
        "%# section\n"
    );
}

#[test]
fn transpile_list_like() {
    let options = plain();
    let options_flatten = flat();

    // Do not convert
    assert_eq!(indentex::transpile::transpile(&lines_of(&["* a"]), &options), "* a\n");
    assert_eq!(indentex::transpile::transpile(&lines_of(&["\\* b"]), &options), "\\* b\n");
    assert_eq!(indentex::transpile::transpile(&lines_of(&["\\\\* c"]), &options), "\\\\* c\n");

    // itemize
    assert_eq!(
        indentex::transpile::transpile(
            &lines_of(&["# itemize:", "  * яблоки", "  * груши", "  * абрикосы"]),
            &options
        ),
        "\\begin{itemize}\n  \\item яблоки\n  \\item груши\n  \\item абрикосы\n\\end{itemize}\n"
    );
    assert_eq!(
        indentex::transpile::transpile(
            &lines_of(&["# itemize:", "  * яблоки", "  * груши", "  * абрикосы"]),
            &options_flatten
        ),
        "\\begin{itemize}\n\\item яблоки\n\\item груши\n\\item абрикосы\n\\end{itemize}\n"
    );

    // enumerate
    assert_eq!(
        indentex::transpile::transpile(
            &lines_of(&["# enumerate:", "  * Alice", "  * Bob", "  *"]),
            &options
        ),
        "\\begin{enumerate}\n  \\item Alice\n  \\item Bob\n  \\item\n\\end{enumerate}\n"
    );
    assert_eq!(
        indentex::transpile::transpile(
            &lines_of(&["# enumerate:", "  * Alice", "  * Bob", "  *"]),
            &options_flatten
        ),
        "\\begin{enumerate}\n\\item Alice\n\\item Bob\n\\item\n\\end{enumerate}\n"
    );

    // description
    assert_eq!(
        indentex::transpile::transpile(
            &lines_of(&["# description:", "  *[Ä] letter Ä", "  *[Ü] letter Ü"]),
            &options
        ),
        "\\begin{description}\n  \\item [Ä] letter Ä\n  \\item [Ü] letter Ü\n\\end{description}\n"
    );
    assert_eq!(
        indentex::transpile::transpile(
            &lines_of(&["# description:", "  *[Ä] letter Ä", "  *[Ü] letter Ü"]),
            &options_flatten
        ),
        "\\begin{description}\n\\item [Ä] letter Ä\n\\item [Ü] letter Ü\n\\end{description}\n"
    );

    // leveled
    assert_eq!(
        indentex::transpile::transpile(
            &lines_of(&[
                "# itemize:",
                "  * first level, first item",
                "    # itemize:",
                "      * second level, first item",
                "      * second level, second item",
                "  * first level, second item",
                "    # equation:",
                "      * % this should not be converted",
            ]),
            &options
        ),
        "\\begin{itemize}\n  \\item first level, first item\n    \\begin{itemize}\n      \\item second level, first item\n      \\item second level, second item\n    \\end{itemize}\n  \\item first level, second item\n    \\begin{equation}\n      * % this should not be converted\n    \\end{equation}\n\\end{itemize}\n"
    );
    assert_eq!(
        indentex::transpile::transpile(
            &lines_of(&[
                "# itemize:",
                "  * first level, first item",
                "    # itemize:",
                "      * second level, first item",
                "      * second level, second item",
                "  * first level, second item",
                "    # equation:",
                "      * % this should not be converted",
            ]),
            &options_flatten
        ),
        "\\begin{itemize}\n\\item first level, first item\n\\begin{itemize}\n\\item second level, first item\n\\item second level, second item\n\\end{itemize}\n\\item first level, second item\n\\begin{equation}\n* % this should not be converted\n\\end{equation}\n\\end{itemize}\n"
    );

    // escaped asterisk
    assert_eq!(
        indentex::transpile::transpile(
            &lines_of(&[
                "# enumerate:",
                "  * This should be converted to an item",
                "  \\* and this not",
            ]),
            &options
        ),
        "\\begin{enumerate}\n  \\item This should be converted to an item\n  \\* and this not\n\\end{enumerate}\n"
    );
    assert_eq!(
        indentex::transpile::transpile(
            &lines_of(&[
                "# enumerate:",
                "  * This should be converted to an item",
                "  \\* and this not",
            ]),
            &options_flatten
        ),
        "\\begin{enumerate}\n\\item This should be converted to an item\n\\* and this not\n\\end{enumerate}\n"
    );
}

#[test]
fn transpile_envs() {
    let options = plain();
    let options_flatten = flat();

    // equation environment
    assert_eq!(
        indentex::transpile::transpile(
            &lines_of(&["# equation*:", "  # label: eq:test", "  a + b"]),
            &options
        ),
        "\\begin{equation*}\n  \\label{eq:test}\n  a + b\n\\end{equation*}\n"
    );
    assert_eq!(
        indentex::transpile::transpile(
            &lines_of(&["# equation*:", "  # label: eq:test", "  a + b"]),
            &options_flatten
        ),
        "\\begin{equation*}\n\\label{eq:test}\na + b\n\\end{equation*}\n"
    );

    // tikz environment
    assert_eq!(
        indentex::transpile::transpile(
            &lines_of(&["# tikzpicture [x = 2 cm]:", "  \\draw (0, 0) -- (1, 1);"]),
            &options
        ),
        "\\begin{tikzpicture}[x = 2 cm]\n  \\draw (0, 0) -- (1, 1);\n\\end{tikzpicture}\n"
    );
    assert_eq!(
        indentex::transpile::transpile(
            &lines_of(&["# tikzpicture [x = 2 cm]:", "  \\draw (0, 0) -- (1, 1);"]),
            &options_flatten
        ),
        "\\begin{tikzpicture}[x = 2 cm]\n\\draw (0, 0) -- (1, 1);\n\\end{tikzpicture}\n"
    );

    // comments
    assert_eq!(
        indentex::transpile::transpile(
            &lines_of(&[
                "# equation: % test",
                "  a + b",
                "# remark [test percent escaping \\%]: % baz",
                "  foo bar",
            ]),
            &options
        ),
        "\\begin{equation} % test\n  a + b\n\\end{equation}\n\\begin{remark}[test percent escaping \\%] % baz\n  foo bar\n\\end{remark}\n"
    );
    assert_eq!(
        indentex::transpile::transpile(
            &lines_of(&[
                "# equation: % test",
                "  a + b",
                "# remark [test percent escaping \\%]: % baz",
                "  foo bar",
            ]),
            &options_flatten
        ),
        "\\begin{equation} % test\na + b\n\\end{equation}\n\\begin{remark}[test percent escaping \\%] % baz\nfoo bar\n\\end{remark}\n"
    );

    // deeply nested environments
    assert_eq!(
        indentex::transpile::transpile(
            &lines_of(&[
                "# a:",
                "  # b:",
                "    # c:",
                "      # d:",
                "        # e:",
                "          # f:",
                "            # g:",
                "              # h:",
                "                # i:",
                "                  foobar",
            ]),
            &options
        ),
        "\\begin{a}\n  \\begin{b}\n    \\begin{c}\n      \\begin{d}\n        \\begin{e}\n          \\begin{f}\n            \\begin{g}\n              \\begin{h}\n                \\begin{i}\n                  foobar\n                \\end{i}\n              \\end{h}\n            \\end{g}\n          \\end{f}\n        \\end{e}\n      \\end{d}\n    \\end{c}\n  \\end{b}\n\\end{a}\n"
    );
    assert_eq!(
        indentex::transpile::transpile(
            &lines_of(&[
                "# a:",
                "  # b:",
                "    # c:",
                "      # d:",
                "        # e:",
                "          # f:",
                "            # g:",
                "              # h:",
                "                # i:",
                "                  foobar",
            ]),
            &options_flatten
        ),
        "\\begin{a}\n\\begin{b}\n\\begin{c}\n\\begin{d}\n\\begin{e}\n\\begin{f}\n\\begin{g}\n\\begin{h}\n\\begin{i}\nfoobar\n\\end{i}\n\\end{h}\n\\end{g}\n\\end{f}\n\\end{e}\n\\end{d}\n\\end{c}\n\\end{b}\n\\end{a}\n"
    );
}

#[test]
fn transpile_different_indents() {
    let options = plain();

    // 2 spaces
    assert_eq!(
        indentex::transpile::transpile(
            &lines_of(&["# a:", "  # b:", "    test_b", "  # c:", "    test_c"]),
            &options
        ),
        "\\begin{a}\n  \\begin{b}\n    test_b\n  \\end{b}\n  \\begin{c}\n    test_c\n  \\end{c}\n\\end{a}\n"
    );

    // 4 spaces
    assert_eq!(
        indentex::transpile::transpile(
            &lines_of(&["# a:", "    # b:", "        test_b", "    # c:", "        test_c"]),
            &options
        ),
        "\\begin{a}\n    \\begin{b}\n        test_b\n    \\end{b}\n    \\begin{c}\n        test_c\n    \\end{c}\n\\end{a}\n"
    );
}

#[test]
fn transpile_empty_input() {
    assert_eq!(indentex::transpile::transpile(&lines_of(&[]), &plain()), "");
    assert_eq!(indentex::transpile::transpile(&lines_of(&[""]), &plain()), "\n");
}

#[test]
fn transpile_simple_itemize() {
    // A list-like environment with two items
    assert_eq!(
        indentex::transpile::transpile(&lines_of(&["# itemize:", "  * a", "  * b"]), &plain()),
        "\\begin{itemize}\n  \\item a\n  \\item b\n\\end{itemize}\n"
    );
}

#[test]
fn transpile_lone_asterisk_verbatim() {
    // A `*` line with no active list-like environment passes through
    assert_eq!(indentex::transpile::transpile(&lines_of(&["*"]), &plain()), "*\n");
}

#[test]
fn transpile_escaped_percent_round_trip() {
    // `\%` in opts and args comes back as `\%` exactly
    assert_eq!(
        indentex::transpile::transpile(&lines_of(&["# cmd [\\%]: x \\% y"]), &plain()),
        "\\cmd[\\%]{x \\% y}\n"
    );
}

#[test]
fn transpile_ten_levels_close_in_reverse() {
    assert_eq!(
        indentex::transpile::transpile(
            &lines_of(&[
                "# a:",
                "  # b:",
                "    # c:",
                "      # d:",
                "        # e:",
                "          # f:",
                "            # g:",
                "              # h:",
                "                # i:",
                "                  # j:",
                "                    deep",
            ]),
            &flat()
        ),
        "\\begin{a}\n\\begin{b}\n\\begin{c}\n\\begin{d}\n\\begin{e}\n\\begin{f}\n\\begin{g}\n\\begin{h}\n\\begin{i}\n\\begin{j}\ndeep\n\\end{j}\n\\end{i}\n\\end{h}\n\\end{g}\n\\end{f}\n\\end{e}\n\\end{d}\n\\end{c}\n\\end{b}\n\\end{a}\n"
    );
}

#[test]
fn transpile_notice_with_flatten() {
    let options = TranspileOptions { flatten_output: true, prepend_do_not_edit_notice: true };
    assert_eq!(
        indentex::transpile::transpile(&lines_of(&["# a:", "  x"]), &options),
        "% ============================================================== %\n%                                                                %\n% THIS IS AN AUTOGENERATED FILE. DO NOT EDIT THIS FILE DIRECTLY. %\n%                                                                %\n% ============================================================== %\n\\begin{a}\nx\n\\end{a}\n"
    );
}

#[test]
fn transpile_blank_lines_keep_envs_open() {
    // A blank line adopts the indent of the next non-blank line below, so it
    // does not close the environment
    assert_eq!(
        indentex::transpile::transpile(&lines_of(&["# a:", "  x", "", "  y"]), &plain()),
        "\\begin{a}\n  x\n\n  y\n\\end{a}\n"
    );
}
