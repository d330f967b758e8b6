use yeti::Expression;
use yeti::Float;

fn read_source(source: &str) -> Expression {
    let tokens = yeti::tokenize(source);
    yeti::parse(&tokens).expect("the source should parse")
}

#[test]
fn render_scalars() {
    assert_eq!(yeti::render(&Expression::Nil), "nil");
    assert_eq!(yeti::render(&Expression::Bool(true)), "true");
    assert_eq!(yeti::render(&Expression::Bool(false)), "false");
    assert_eq!(yeti::render(&Expression::Integer(-42)), "-42");
    assert_eq!(yeti::render(&Expression::Ratio(7, 3)), "7/3");
    assert_eq!(yeti::render(&Expression::Float(Float { mantissa: 314, scale: 2 })), "3.14");
    assert_eq!(yeti::render(&Expression::Float(Float { mantissa: -5, scale: 1 })), "-0.5");
    assert_eq!(yeti::render(&Expression::Float(Float { mantissa: 10000, scale: 1 })), "1000.0");
    assert_eq!(yeti::render(&Expression::String("a\"b\n".to_string())), "\"a\\\"b\\n\"");
    assert_eq!(yeti::render(&Expression::Keyword(":k".to_string())), ":k");
}

#[test]
fn render_collections() {
    assert_eq!(yeti::render(&read_source("[1, 2, 3]")), "[1, 2, 3]");
    assert_eq!(yeti::render(&read_source("{:a 1 :b 2}")), "{:a 1, :b 2}");
    assert_eq!(yeti::render(&read_source("(+ 1 2)")), "(+ 1 2)");
    assert_eq!(yeti::render(&read_source("'(+ 1 2)")), "'(+ 1 2)");
    assert_eq!(yeti::render(&read_source("@a")), "@a");
}

#[test]
fn render_then_read_back() {
    let samples = [
        "(+ 1 2)",
        "[1, -2/3, 4.5]",
        "{:a 1, :b [2, 3]}",
        "'(f x)",
        "\"a\\nb\"",
        "(f)",
    ];
    let mut i = 0;
    while i < samples.len() {
        let original = read_source(samples[i]);
        let text = yeti::render(&original);
        let reread = read_source(text.as_str());
        assert!(yeti::expr_eq(&original, &reread));
        i += 1;
    }
}

#[test]
fn render_function_value() {
    let env = yeti::environment();
    let (_, f) =
        yeti::evaluate_source(env, "(fn [x] (* x 2))").expect("the closure should build");
    let text = yeti::render(&f);
    assert_eq!(text, "(fn [x] (* x 2))");
}

#[test]
fn stdin_iterator_steps_over_lines() {
    let mut source = yeti::StdinIterator::new();
    assert_eq!(source.next(), None);
    source.refill("ab");
    assert_eq!(source.next(), Some('a'));
    assert_eq!(source.next(), Some('b'));
    assert_eq!(source.next(), None);
    source.refill("c");
    assert_eq!(source.next(), Some('c'));
}

#[test]
fn parse_module_reads_every_form() {
    let tokens = yeti::tokenize("(def x 1) x");
    let forms = yeti::parse_module(&tokens).expect("the module should parse");
    assert_eq!(forms.len(), 2);
    assert!(yeti::expr_eq(&forms[1], &Expression::Symbol("x".to_string())));
}
