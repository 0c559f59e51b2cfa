use gramma::{get_parsing_grammar, parse_ast_grammar, ParseOptions, AST};

const RAW_GRAMMAR_SUM: &str = r#"
            START -> ( SUM )
            SUM -> ( PRODUCT ( OPA PRODUCT )* )
            PRODUCT -> ( NUMBER ( OPB NUMBER )* )
            NUMBER -> ( num )
            NUMBER -> ( minus num )
            OPA -> ( ( pluss ) | ( minus ) )
            OPB -> ( ( multiply ) | ( divide ) )

            >pluss -> '\+'
            >minus -> '-'
            >multiply -> 'x'
            >divide -> '/'
            >num -> '\d+'
            "#;

const RAW_GRAMMAR_FILES: &str = r#"
            START -> ( FILE )*
            FILE -> (alpha (dot alpha)?)

            >alpha -> '\w+'
            >dot -> '\.'
            "#;

fn to_json(ast: &AST) -> String {
    match ast {
        AST::Node { t, children } => {
            let inner: Vec<String> = children.iter().map(to_json).collect();
            format!("{{\"type\":\"{}\",\"children\":[{}]}}", t, inner.join(","))
        }
        AST::Leaf { t, raw } => {
            format!("{{\"type\":\"{}\",\"raw\":\"{}\"}}", t, raw)
        }
    }
}

#[test]
fn parse_simple_grammar() {
    let g = get_parsing_grammar();
    assert!(g.parse(&RAW_GRAMMAR_SUM.into()).is_ok());
}

#[test]
fn parse_ast() {
    let g = get_parsing_grammar();
    let ast = g.parse(&RAW_GRAMMAR_SUM.into()).unwrap();
    let gp = parse_ast_grammar(ast).unwrap();
    assert!(gp.parse(&"1".into()).is_ok());
    assert!(gp.parse(&"1+2x3".into()).is_ok());
    assert!(gp.parse(&"1x2+3x4".into()).is_ok());
}

#[test]
fn parse_with_parsed_grammar() {
    let g = get_parsing_grammar();
    let ast = g.parse(&RAW_GRAMMAR_FILES.into()).unwrap();
    let gp = parse_ast_grammar(ast).unwrap().with_options(ParseOptions {
        ignore_newline: true,
        ignore_whitespace: true,
        bubble_intermediate: true,
    });
    assert_eq!(
        to_json(&gp.parse(&"fileA".into()).unwrap()),
        r#"{"type":"alpha","raw":"fileA"}"#
    );
    assert_eq!(
        to_json(&gp.parse(&"fileA.md".into()).unwrap()),
        r#"{"type":"FILE","children":[{"type":"alpha","raw":"fileA"},{"type":"dot","raw":"."},{"type":"alpha","raw":"md"}]}"#
    );
    assert_eq!(
        to_json(&gp.parse(&"fileA fileB".into()).unwrap()),
        r#"{"type":"START","children":[{"type":"alpha","raw":"fileA"},{"type":"alpha","raw":"fileB"}]}"#
    );
}
