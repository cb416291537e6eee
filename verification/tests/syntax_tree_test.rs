use home_monitor::syntax_tree::{render_tree, SyntaxTree};

fn node(label: &str, children: Vec<SyntaxTree>) -> SyntaxTree {
    SyntaxTree { label: label.to_string(), children }
}

fn leaf(label: &str) -> SyntaxTree {
    node(label, Vec::new())
}

const PROPERTY1: &str = r#"Program
+-> Property
    +-> always = always
        +-> -> = ->
            +-> = = =
            |   +-> ( = (
            |   +-> % = %
            |   |   +-> TIME = t
            |   |   +-> UNIT = h
            |   |       +-> NUMBER = 24
            |   +-> NUMBER = 0
            |   +-> ) = )
            +-> < = <
                +-> always = always
                |   +-> Interval
                |   |   +-> UNIT = h
                |   |   |   +-> NUMBER = 0
                |   |   +-> UNIT = h
                |   |       +-> NUMBER = 24
                |   +-> sumtime = sumtime
                |       +-> * = *
                |           +-> active = active
                |           +-> power = power
                +-> UNIT = kWh
                    +-> NUMBER = 10
"#;

const PROPERTY2: &str = r#"Program
+-> Property
    +-> eventually = eventually
        +-> not = not
        +-> > = >
            +-> count = count
            |   +-> active = active
            +-> NUMBER = 5
"#;

const PROPERTY3: &str = r#"Program
+-> Property
    +-> always = always
        +-> foreach = foreach
            +-> -> = ->
                +-> active = active
                +-> eventually = eventually
                    +-> Interval
                    |   +-> UNIT = h
                    |   |   +-> NUMBER = 0
                    |   +-> UNIT = h
                    |       +-> NUMBER = 6
                    +-> ! = !
                        +-> active = active
"#;

const PROPERTY4: &str = r#"Program
+-> Property
    +-> always = always
        +-> count = count
            +-> & = &
                +-> = = =
                |   +-> name = name
                |   +-> STRING = fridge
                +-> active = active
"#;

const PROPERTY5: &str = r#"Program
+-> Property
    +-> always = always
        +-> -> = ->
            +-> >= = >=
            |   +-> count = count
            |   |   +-> active = active
            |   +-> NUMBER = 5
            +-> < = <
                +-> eventually = eventually
                |   +-> Interval
                |   |   +-> UNIT = h
                |   |   |   +-> NUMBER = 0
                |   |   +-> UNIT = h
                |   |       +-> NUMBER = 6
                |   +-> count = count
                |       +-> active = active
                +-> NUMBER = 5
"#;

const PROPERTY6: &str = r#"Program
+-> Property
    +-> always = always
        +-> <= = <=
            +-> sum = sum
            |   +-> * = *
            |       +-> active = active
            |       +-> power = power
            +-> UNIT = w
                +-> NUMBER = 100
"#;

const PROPERTY7: &str = r#"Program
+-> Property
    +-> always = always
    |   +-> NUMBER = 7
    +-> eventually = eventually
        +-> NUMBER = 7
"#;

const PROPERTY8: &str = r#"Program
+-> Property
    +-> until = until
        +-> not = not
        +-> ( = (
        +-> active = active
        +-> , = ,
        +-> NUMBER = 10
        +-> ) = )
"#;

#[test]
fn render_tree_property1() {
    let tree =
        node(
            "Program",
            vec![
                node(
                    "Property",
                    vec![
                        node(
                            "always = always",
                            vec![
                                node(
                                    "-> = ->",
                                    vec![
                                        node(
                                            "= = =",
                                            vec![
                                                leaf("( = ("),
                                                node(
                                                    "% = %",
                                                    vec![
                                                        leaf("TIME = t"),
                                                        node(
                                                            "UNIT = h",
                                                            vec![
                                                                leaf("NUMBER = 24"),
                                                            ],
                                                        ),
                                                    ],
                                                ),
                                                leaf("NUMBER = 0"),
                                                leaf(") = )"),
                                            ],
                                        ),
                                        node(
                                            "< = <",
                                            vec![
                                                node(
                                                    "always = always",
                                                    vec![
                                                        node(
                                                            "Interval",
                                                            vec![
                                                                node(
                                                                    "UNIT = h",
                                                                    vec![
                                                                        leaf("NUMBER = 0"),
                                                                    ],
                                                                ),
                                                                node(
                                                                    "UNIT = h",
                                                                    vec![
                                                                        leaf("NUMBER = 24"),
                                                                    ],
                                                                ),
                                                            ],
                                                        ),
                                                        node(
                                                            "sumtime = sumtime",
                                                            vec![
                                                                node(
                                                                    "* = *",
                                                                    vec![
                                                                        leaf("active = active"),
                                                                        leaf("power = power"),
                                                                    ],
                                                                ),
                                                            ],
                                                        ),
                                                    ],
                                                ),
                                                node(
                                                    "UNIT = kWh",
                                                    vec![
                                                        leaf("NUMBER = 10"),
                                                    ],
                                                ),
                                            ],
                                        ),
                                    ],
                                ),
                            ],
                        ),
                    ],
                ),
            ],
        );
    assert_eq!(render_tree(&tree), PROPERTY1);
}

#[test]
fn render_tree_property2() {
    let tree =
        node(
            "Program",
            vec![
                node(
                    "Property",
                    vec![
                        node(
                            "eventually = eventually",
                            vec![
                                leaf("not = not"),
                                node(
                                    "> = >",
                                    vec![
                                        node(
                                            "count = count",
                                            vec![
                                                leaf("active = active"),
                                            ],
                                        ),
                                        leaf("NUMBER = 5"),
                                    ],
                                ),
                            ],
                        ),
                    ],
                ),
            ],
        );
    assert_eq!(render_tree(&tree), PROPERTY2);
}

#[test]
fn render_tree_property3() {
    let tree =
        node(
            "Program",
            vec![
                node(
                    "Property",
                    vec![
                        node(
                            "always = always",
                            vec![
                                node(
                                    "foreach = foreach",
                                    vec![
                                        node(
                                            "-> = ->",
                                            vec![
                                                leaf("active = active"),
                                                node(
                                                    "eventually = eventually",
                                                    vec![
                                                        node(
                                                            "Interval",
                                                            vec![
                                                                node(
                                                                    "UNIT = h",
                                                                    vec![
                                                                        leaf("NUMBER = 0"),
                                                                    ],
                                                                ),
                                                                node(
                                                                    "UNIT = h",
                                                                    vec![
                                                                        leaf("NUMBER = 6"),
                                                                    ],
                                                                ),
                                                            ],
                                                        ),
                                                        node(
                                                            "! = !",
                                                            vec![
                                                                leaf("active = active"),
                                                            ],
                                                        ),
                                                    ],
                                                ),
                                            ],
                                        ),
                                    ],
                                ),
                            ],
                        ),
                    ],
                ),
            ],
        );
    assert_eq!(render_tree(&tree), PROPERTY3);
}

#[test]
fn render_tree_property4() {
    let tree =
        node(
            "Program",
            vec![
                node(
                    "Property",
                    vec![
                        node(
                            "always = always",
                            vec![
                                node(
                                    "count = count",
                                    vec![
                                        node(
                                            "& = &",
                                            vec![
                                                node(
                                                    "= = =",
                                                    vec![
                                                        leaf("name = name"),
                                                        leaf("STRING = fridge"),
                                                    ],
                                                ),
                                                leaf("active = active"),
                                            ],
                                        ),
                                    ],
                                ),
                            ],
                        ),
                    ],
                ),
            ],
        );
    assert_eq!(render_tree(&tree), PROPERTY4);
}

#[test]
fn render_tree_property5() {
    let tree =
        node(
            "Program",
            vec![
                node(
                    "Property",
                    vec![
                        node(
                            "always = always",
                            vec![
                                node(
                                    "-> = ->",
                                    vec![
                                        node(
                                            ">= = >=",
                                            vec![
                                                node(
                                                    "count = count",
                                                    vec![
                                                        leaf("active = active"),
                                                    ],
                                                ),
                                                leaf("NUMBER = 5"),
                                            ],
                                        ),
                                        node(
                                            "< = <",
                                            vec![
                                                node(
                                                    "eventually = eventually",
                                                    vec![
                                                        node(
                                                            "Interval",
                                                            vec![
                                                                node(
                                                                    "UNIT = h",
                                                                    vec![
                                                                        leaf("NUMBER = 0"),
                                                                    ],
                                                                ),
                                                                node(
                                                                    "UNIT = h",
                                                                    vec![
                                                                        leaf("NUMBER = 6"),
                                                                    ],
                                                                ),
                                                            ],
                                                        ),
                                                        node(
                                                            "count = count",
                                                            vec![
                                                                leaf("active = active"),
                                                            ],
                                                        ),
                                                    ],
                                                ),
                                                leaf("NUMBER = 5"),
                                            ],
                                        ),
                                    ],
                                ),
                            ],
                        ),
                    ],
                ),
            ],
        );
    assert_eq!(render_tree(&tree), PROPERTY5);
}

#[test]
fn render_tree_property6() {
    let tree =
        node(
            "Program",
            vec![
                node(
                    "Property",
                    vec![
                        node(
                            "always = always",
                            vec![
                                node(
                                    "<= = <=",
                                    vec![
                                        node(
                                            "sum = sum",
                                            vec![
                                                node(
                                                    "* = *",
                                                    vec![
                                                        leaf("active = active"),
                                                        leaf("power = power"),
                                                    ],
                                                ),
                                            ],
                                        ),
                                        node(
                                            "UNIT = w",
                                            vec![
                                                leaf("NUMBER = 100"),
                                            ],
                                        ),
                                    ],
                                ),
                            ],
                        ),
                    ],
                ),
            ],
        );
    assert_eq!(render_tree(&tree), PROPERTY6);
}

#[test]
fn render_tree_property7() {
    let tree =
        node(
            "Program",
            vec![
                node(
                    "Property",
                    vec![
                        node(
                            "always = always",
                            vec![
                                leaf("NUMBER = 7"),
                            ],
                        ),
                        node(
                            "eventually = eventually",
                            vec![
                                leaf("NUMBER = 7"),
                            ],
                        ),
                    ],
                ),
            ],
        );
    assert_eq!(render_tree(&tree), PROPERTY7);
}

#[test]
fn render_tree_property8() {
    let tree =
        node(
            "Program",
            vec![
                node(
                    "Property",
                    vec![
                        node(
                            "until = until",
                            vec![
                                leaf("not = not"),
                                leaf("( = ("),
                                leaf("active = active"),
                                leaf(", = ,"),
                                leaf("NUMBER = 10"),
                                leaf(") = )"),
                            ],
                        ),
                    ],
                ),
            ],
        );
    assert_eq!(render_tree(&tree), PROPERTY8);
}
#[test]
fn render_tree_single_node() {
    assert_eq!(render_tree(&leaf("Program")), "Program\n");
}

#[test]
fn render_tree_lane_closes_after_last_sibling() {
    let tree = node(
        "r",
        vec![node("a", vec![leaf("a1"), leaf("a2")]), node("b", vec![leaf("b1")])],
    );
    assert_eq!(
        render_tree(&tree),
        "r\n+-> a\n|   +-> a1\n|   +-> a2\n+-> b\n    +-> b1\n"
    );
}
