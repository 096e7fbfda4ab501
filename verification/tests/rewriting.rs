//! The rewriter on whole token sequences, written as source text.

use postfix_macros::error::{RewriteError, ScanError};
use postfix_macros::rewrite::{postfix_macros, Visitor};
use postfix_macros::scan::expression_length;
use postfix_macros::token::{Delimiter, Group, Spacing, Span, Token};

/// Reads tokens from `chars` up to the bracket that closes the group, or to
/// the end of the text.
fn lex_until(chars: &[char], pos: &mut usize, next_span: &mut u64, close: Option<char>) -> Vec<Token> {
    let mut out = Vec::new();
    loop {
        while *pos < chars.len() && chars[*pos].is_whitespace() {
            *pos += 1;
        }
        if *pos >= chars.len() {
            assert!(close.is_none(), "unclosed bracket");
            return out;
        }
        let c = chars[*pos];
        if Some(c) == close {
            *pos += 1;
            return out;
        }
        let span = Span::Source(*next_span);
        *next_span += 1;
        if c.is_alphabetic() || c == '_' {
            let begin = *pos;
            while *pos < chars.len() && (chars[*pos].is_alphanumeric() || chars[*pos] == '_') {
                *pos += 1;
            }
            out.push(Token::Ident { name: chars[begin..*pos].iter().collect(), span });
        } else if c.is_ascii_digit() {
            let begin = *pos;
            while *pos < chars.len() && (chars[*pos].is_alphanumeric() || chars[*pos] == '_') {
                *pos += 1;
            }
            out.push(Token::Literal { text: chars[begin..*pos].iter().collect(), span });
        } else if c == '"' {
            let begin = *pos;
            *pos += 1;
            while chars[*pos] != '"' {
                *pos += 1;
            }
            *pos += 1;
            out.push(Token::Literal { text: chars[begin..*pos].iter().collect(), span });
        } else if c == '(' || c == '[' || c == '{' {
            *pos += 1;
            let (delimiter, closer) = match c {
                '(' => (Delimiter::Parenthesis, ')'),
                '[' => (Delimiter::Bracket, ']'),
                _ => (Delimiter::Brace, '}'),
            };
            let stream = lex_until(chars, pos, next_span, Some(closer));
            out.push(Token::Group(Group { delimiter, stream, span }));
        } else {
            assert!(c != ')' && c != ']' && c != '}', "stray closing bracket");
            *pos += 1;
            let joint = *pos < chars.len() && {
                let n = chars[*pos];
                !n.is_whitespace() && !n.is_alphanumeric() && !"_\"()[]{}".contains(n)
            };
            let spacing = if joint { Spacing::Joint } else { Spacing::Alone };
            out.push(Token::Punct { ch: c, spacing, span });
        }
    }
}

/// The tokens of `text`, with spans numbered in the order of the text.
fn lex(text: &str) -> Vec<Token> {
    let chars: Vec<char> = text.chars().collect();
    let mut pos = 0;
    let mut next_span = 0;
    lex_until(&chars, &mut pos, &mut next_span, None)
}

/// The tokens as text, spans left out: a space between two tokens, none
/// behind punctuation that is fused to what follows.
fn render(tokens: &[Token]) -> String {
    let mut out = String::new();
    let mut glue = true;
    for t in tokens {
        if !glue {
            out.push(' ');
        }
        glue = false;
        match t {
            Token::Ident { name, .. } => out.push_str(name),
            Token::Literal { text, .. } => out.push_str(text),
            Token::Punct { ch, spacing, .. } => {
                out.push(*ch);
                glue = *spacing == Spacing::Joint;
            }
            Token::Group(g) => {
                let (open, close) = match g.delimiter {
                    Delimiter::Parenthesis => ("(", ")"),
                    Delimiter::Bracket => ("[", "]"),
                    Delimiter::Brace => ("{", "}"),
                    Delimiter::Undelimited => ("<<", ">>"),
                };
                out.push_str(open);
                if !g.stream.is_empty() {
                    out.push(' ');
                    out.push_str(&render(&g.stream));
                    out.push(' ');
                }
                out.push_str(close);
            }
        }
    }
    out
}

/// The text that `text` is rewritten to.
fn rewritten(text: &str) -> String {
    match postfix_macros(lex(text)) {
        Ok(out) => render(&out),
        Err(e) => panic!("rewriting {:?} failed: {:?}", text, e),
    }
}

/// `expected` as the rewriter would give it back.
fn canon(expected: &str) -> String {
    render(&lex(expected))
}

/// The error that rewriting `text` ends with.
fn failure(text: &str) -> RewriteError {
    match postfix_macros(lex(text)) {
        Ok(out) => panic!("rewriting {:?} gave {:?}", text, render(&out)),
        Err(e) => e,
    }
}

/// How many tokens the scanner finds at the end of `text`.
fn receiver_length(text: &str) -> Result<usize, ScanError> {
    expression_length(&lex(text))
}

#[test]
fn lexer_reads_spacing_and_groups() {
    let tokens = lex("a && (b)");
    assert_eq!(
        tokens,
        vec![
            Token::Ident { name: "a".to_string(), span: Span::Source(0) },
            Token::Punct { ch: '&', spacing: Spacing::Joint, span: Span::Source(1) },
            Token::Punct { ch: '&', spacing: Spacing::Alone, span: Span::Source(2) },
            Token::Group(Group {
                delimiter: Delimiter::Parenthesis,
                stream: vec![Token::Ident { name: "b".to_string(), span: Span::Source(4) }],
                span: Span::Source(3),
            }),
        ]
    );
    assert_eq!(render(&tokens), "a && ( b )");
}

#[test]
fn identifier_receiver_with_arguments() {
    assert_eq!(rewritten("X.f!(A, B)"), canon("f!(X, A, B)"));
}

#[test]
fn identifier_receiver_without_arguments_gets_no_comma() {
    assert_eq!(rewritten("X.f!()"), canon("f!(X)"));
    assert_eq!(rewritten("X.f!()"), "f ! ( X )");
}

#[test]
fn group_receiver_is_wrapped_in_braces() {
    assert_eq!(rewritten("(a + b).f!(c)"), canon("f!({(a + b)}, c)"));
}

#[test]
fn infix_minus_is_no_part_of_the_receiver() {
    assert_eq!(rewritten("6 - 3.f!()"), canon("6 - f!(3)"));
}

#[test]
fn if_else_chain_is_the_receiver() {
    assert_eq!(
        rewritten("if cond { a } else { b }.to_string().f!()"),
        canon("f!({ if cond { a } else { b }.to_string() })")
    );
}

#[test]
fn leading_invocation_has_no_receiver() {
    assert_eq!(failure(".f!()"), RewriteError::EmptyReceiver);
    assert_eq!(failure("{ .f!() }"), RewriteError::EmptyReceiver);
}

#[test]
fn nested_invocations_are_rewritten_inner_first() {
    assert_eq!(rewritten("a.g!().f!()"), canon("f!({ g!(a) })"));
}

#[test]
fn visitor_limit_counts_nested_groups() {
    assert_eq!(Visitor::new(0).visit_stream(lex("a b")).map(|v| render(&v)), Ok("a b".to_string()));
    assert_eq!(Visitor::new(0).visit_stream(lex("a (b)")), Err(RewriteError::DepthExceeded));
    assert_eq!(Visitor::new(1).visit_stream(lex("a (b)")).map(|v| render(&v)), Ok("a ( b )".to_string()));
    assert_eq!(Visitor::new(1).visit_stream(lex("a ((b))")), Err(RewriteError::DepthExceeded));
    assert_eq!(receiver_length("a.b"), Ok(3));
}

#[test]
fn input_without_invocation_comes_back_unchanged() {
    let text = "fn main() { let x = a.b(c)?; if x != 0 { y!(z) } else { [1, 2][0] } }";
    assert_eq!(postfix_macros(lex(text)), Ok(lex(text)));
    assert_eq!(postfix_macros(Vec::new()), Ok(Vec::new()));
}

#[test]
fn near_misses_are_no_invocations() {
    for text in ["x.f!", "x.f(a)", "x f!(a)", "x.f! y", "x.5!(a)", "x.f!=(a)", ".f", "f!(a)"] {
        assert_eq!(postfix_macros(lex(text)), Ok(lex(text)), "{}", text);
    }
}

#[test]
fn brackets_of_the_arguments_are_kept() {
    assert_eq!(rewritten("x.f![a]"), canon("f![x, a]"));
    assert_eq!(rewritten("x.f!{a}"), canon("f!{x, a}"));
    assert_eq!(rewritten("x.f!{}"), canon("f!{x}"));
    assert_eq!(rewritten("\"hi\".f!(1)"), canon("f!(\"hi\", 1)"));
}

#[test]
fn spliced_tokens_keep_their_spans() {
    let out = postfix_macros(lex("X.f!(A)")).unwrap();
    assert_eq!(
        out,
        vec![
            Token::Ident { name: "f".to_string(), span: Span::Source(2) },
            Token::Punct { ch: '!', spacing: Spacing::Alone, span: Span::Source(3) },
            Token::Group(Group {
                delimiter: Delimiter::Parenthesis,
                stream: vec![
                    Token::Ident { name: "X".to_string(), span: Span::Source(0) },
                    Token::Punct { ch: ',', spacing: Spacing::Alone, span: Span::Synthetic },
                    Token::Ident { name: "A".to_string(), span: Span::Source(5) },
                ],
                span: Span::Synthetic,
            }),
        ]
    );
}

#[test]
fn wrapper_of_a_compound_receiver_is_synthetic() {
    let out = postfix_macros(lex("a.b.f!()")).unwrap();
    assert_eq!(
        out,
        vec![
            Token::Ident { name: "f".to_string(), span: Span::Source(4) },
            Token::Punct { ch: '!', spacing: Spacing::Alone, span: Span::Source(5) },
            Token::Group(Group {
                delimiter: Delimiter::Parenthesis,
                stream: vec![Token::Group(Group {
                    delimiter: Delimiter::Brace,
                    stream: vec![
                        Token::Ident { name: "a".to_string(), span: Span::Source(0) },
                        Token::Punct { ch: '.', spacing: Spacing::Alone, span: Span::Source(1) },
                        Token::Ident { name: "b".to_string(), span: Span::Source(2) },
                    ],
                    span: Span::Synthetic,
                })],
                span: Span::Synthetic,
            }),
        ]
    );
}

#[test]
fn groups_that_hold_no_invocation_keep_their_span() {
    let out = postfix_macros(lex("(a) [b.f!()]")).unwrap();
    match (&out[0], &out[1]) {
        (Token::Group(first), Token::Group(second)) => {
            assert_eq!(first.span, Span::Source(0));
            assert_eq!(second.span, Span::Source(2));
            assert_eq!(second.delimiter, Delimiter::Bracket);
            assert_eq!(render(&second.stream), "f ! ( b )");
        }
        other => panic!("two groups expected, got {:?}", other),
    }
}

#[test]
fn several_invocations_in_one_sequence() {
    assert_eq!(rewritten("a.f!(); b.g!(c)"), canon("f!(a); g!(b, c)"));
    assert_eq!(rewritten("(x.f!()).g!(y.h!())"), canon("g!({ (f!(x)) }, h!(y))"));
    assert_eq!(rewritten("{ a.f!() } { b.g!() }"), canon("{ f!(a) } { g!(b) }"));
}

#[test]
fn receiver_ends_at_a_keyword_before_an_identifier() {
    assert_eq!(
        rewritten("if v.matches!(Some(42)) { return; }"),
        canon("if matches!(v, Some(42)) { return; }")
    );
    assert_eq!(rewritten("if hello.f!(hello) {}"), canon("if f!(hello, hello) {}"));
}

#[test]
fn receiver_ends_at_an_assignment() {
    assert_eq!(rewritten("let b = v.matches!(Some(42));"), canon("let b = matches!(v, Some(42));"));
    assert_eq!(
        rewritten("let b = v.map(|v| v + 2).matches!(Some(42));"),
        canon("let b = matches!({ v.map(|v| v + 2) }, Some(42));")
    );
    assert_eq!(
        rewritten("let _ :String = Default::default().f!(1);"),
        canon("let _ :String = f!({ Default::default() }, 1);")
    );
}

#[test]
fn logical_and_is_infix() {
    assert_eq!(
        rewritten("let bb = b && (None::<()>).matches!(None);"),
        canon("let bb = b && matches!({ (None::<()>) }, None);")
    );
    assert_eq!(rewritten("false && true.f!()"), canon("false && f!(true)"));
    assert_eq!(rewritten("let _ = &&(0).f!();"), canon("let _ = && f!({ (0) });"));
}

#[test]
fn chained_invocations() {
    assert_eq!(
        rewritten("(None::<()>).matches!(None).assert!();"),
        canon("assert!({ matches!({ (None::<()>) }, None) });")
    );
}

#[test]
fn mutable_reference_belongs_to_the_receiver() {
    assert_eq!(rewritten("&mut X.f!()"), canon("f!({ &mut X })"));
    assert_eq!(rewritten("let v = &mut ().m!();"), canon("let v = m!({ &mut () });"));
    assert_eq!(rewritten("{ &mut ().f!(1); }"), canon("{ f!({ &mut () }, 1); }"));
}

#[test]
fn prefix_operators_belong_to_the_receiver() {
    assert_eq!(rewritten("(0, &().f!(1))"), canon("(0, f!({ &() }, 1))"));
    assert_eq!(rewritten("let _ = & &(0).f!();"), canon("let _ = f!({ & &(0) });"));
    assert_eq!(rewritten("{ &().f!(); }"), canon("{ f!({ &() }); }"));
    assert_eq!(rewritten("x = -y.f!()"), canon("x = f!({ -y })"));
    assert_eq!(rewritten("return *p.f!()"), canon("f!({ return *p })"));
}

#[test]
fn fused_ampersand_ends_the_receiver() {
    // The `&` stays fused to what follows it, which is now the macro's name.
    assert_eq!(rewritten("fn g() {} &-0.f!(1);"), "fn g () {} &f ! ( { - 0 } , 1 ) ;");
    assert_eq!(rewritten("{ &&&(0).f!(); }"), canon("{ &&& f!({ (0) }); }"));
    assert_eq!(failure("x &.f!()"), RewriteError::EmptyReceiver);
}

#[test]
fn infix_operators_after_literals_and_groups() {
    assert_eq!(rewritten("let _ = 0 -(0).f!((0));"), canon("let _ = 0 - f!({ (0) }, (0));"));
    assert_eq!(rewritten("0*10.f!()"), canon("0 * f!(10)"));
    assert_eq!(rewritten("11&18.f!()"), canon("11 & f!(18)"));
    assert_eq!(rewritten("(a) - b.f!()"), canon("(a) - f!(b)"));
    assert_eq!(rewritten("v[0] * b.f!()"), canon("v[0] * f!(b)"));
    assert_eq!(rewritten("1 - -3.f!()"), canon("1 - f!({ -3 })"));
    assert_eq!(rewritten("1 & &x.f!()"), canon("1 & f!({ &x })"));
}

#[test]
fn other_binary_operators_end_the_receiver() {
    assert_eq!(rewritten("0+7.f!()"), canon("0 + f!(7)"));
    assert_eq!(rewritten("11^10.f!()"), canon("11 ^ f!(10)"));
    assert_eq!(rewritten("16|12.f!()"), canon("16 | f!(12)"));
    assert_eq!(rewritten("17/14.f!()"), canon("17 / f!(14)"));
    assert_eq!(rewritten("17%14.f!()"), canon("17 % f!(14)"));
    assert_eq!(rewritten("a<b.f!()"), canon("a < f!(b)"));
    assert_eq!(rewritten("a>b.f!()"), canon("a > f!(b)"));
    assert_eq!(rewritten("false||true.f!()"), canon("false || f!(true)"));
}

#[test]
fn negation_is_no_part_of_the_receiver() {
    assert_eq!(rewritten("!42.f!()"), canon("!f!(42)"));
    assert_eq!(rewritten("(a) !b.f!()"), canon("(a) !f!(b)"));
}

#[test]
fn array_lookups_and_calls() {
    assert_eq!(rewritten("let a = 1; arr[0].f!(arr[0]);"), canon("let a = 1; f!({ arr[0] }, arr[0]);"));
    assert_eq!(rewritten("x; [0, 1, 2,].f!()"), canon("x; f!({ [0, 1, 2,] })"));
    assert_eq!(
        rewritten("std::iter::once(()).f!(1)"),
        canon("f!({ std::iter::once(()) }, 1)")
    );
    assert_eq!(rewritten("{ Some(13)?.f!(); None }"), canon("{ f!({ Some(13)? }); None }"));
}

#[test]
fn body_of_another_item_is_no_part_of_the_receiver() {
    assert_eq!(rewritten("fn g() {} 42.f!(42);"), canon("fn g() {} f!(42, 42);"));
    assert_eq!(rewritten("fn g() {} hello.f!();"), canon("fn g() {} f!(hello);"));
    assert_eq!(
        rewritten("if false {} (20..42).find(|v| v % 13 == 7).f!()"),
        canon("if false {} f!({ (20..42).find(|v| v % 13 == 7) })")
    );
}

#[test]
fn braced_receivers() {
    assert_eq!(rewritten("dbg!{ 42 }.f!(1);"), canon("f!({ dbg!{ 42 } }, 1);"));
    assert_eq!(rewritten("x; { 42 }.f!(1);"), canon("x; f!({ { 42 } }, 1);"));
    assert_eq!(rewritten("{ 42 }.f!()"), canon("f!({ { 42 } })"));
    assert_eq!(rewritten("(0, { \"hello\" }.f!())"), canon("(0, f!({ { \"hello\" } }))"));
    assert_eq!(rewritten("Foo { a }.f!()"), canon("f!({ Foo { a } })"));
}

#[test]
fn else_if_chain_is_the_receiver() {
    assert_eq!(
        rewritten("if false { 1 } else if true { 2 } else { 3 }.to_string().f!()"),
        canon("f!({ if false { 1 } else if true { 2 } else { 3 }.to_string() })")
    );
    assert_eq!(
        rewritten("if if false { true } else { true } { 1 } else { 2 }.to_string().f!()"),
        canon("f!({ if if false { true } else { true } { 1 } else { 2 }.to_string() })")
    );
    assert_eq!(
        rewritten("let x = if a.b { 1 } else { 2 }.f!();"),
        canon("let x = f!({ if a.b { 1 } else { 2 } });")
    );
}

#[test]
fn match_is_the_receiver_and_ends_it() {
    assert_eq!(
        rewritten("match false { _ => 1 }.to_string().f!()"),
        canon("f!({ match false { _ => 1 }.to_string() })")
    );
    assert_eq!(
        rewritten("\"\"; &match false { _ => 1 }.f!()"),
        canon("\"\"; & f!({ match false { _ => 1 } })")
    );
    assert_eq!(rewritten("y if c { 1 }.f!()"), canon("y f!({ if c { 1 } })"));
}

#[test]
fn scanner_counts_plain_chains() {
    assert_eq!(receiver_length(""), Ok(0));
    assert_eq!(receiver_length("a"), Ok(1));
    assert_eq!(receiver_length("7"), Ok(1));
    assert_eq!(receiver_length("a.b.c"), Ok(5));
    assert_eq!(receiver_length("a::b"), Ok(4));
    assert_eq!(receiver_length("a?"), Ok(2));
    assert_eq!(receiver_length("f(a)"), Ok(2));
    assert_eq!(receiver_length("f(a)[1]"), Ok(1));
    assert_eq!(receiver_length("foo!(x)"), Ok(3));
    assert_eq!(receiver_length("x.y!{ a }"), Ok(5));
}

#[test]
fn scanner_stops_between_two_words() {
    assert_eq!(receiver_length("foo bar"), Ok(1));
    assert_eq!(receiver_length("if x"), Ok(1));
    assert_eq!(receiver_length("x 5"), Ok(1));
    assert_eq!(receiver_length("5 x"), Ok(2));
    assert_eq!(receiver_length("mut x"), Ok(2));
    assert_eq!(receiver_length("& mut x"), Ok(3));
    assert_eq!(receiver_length("y mut x"), Ok(2));
}

#[test]
fn scanner_takes_groups_only_before_punctuation() {
    assert_eq!(receiver_length("f (a) b"), Ok(1));
    assert_eq!(receiver_length("{} (a)"), Ok(1));
    assert_eq!(receiver_length("(a) (b)"), Ok(1));
    assert_eq!(receiver_length("(a).b"), Ok(3));
}

#[test]
fn scanner_stops_at_terminators() {
    for text in ["a, b", "a; b", "a + b", "a / b", "a % b", "a = b", "a < b", "a > b", "a | b", "a ^ b", "a != b"] {
        assert_eq!(receiver_length(text), Ok(1), "{}", text);
    }
    assert_eq!(receiver_length("a..b"), Ok(2));
    assert_eq!(receiver_length("a ."), Ok(2));
    assert_eq!(receiver_length("a &&"), Ok(0));
    assert_eq!(receiver_length("a +"), Ok(0));
}

#[test]
fn scanner_on_bang() {
    assert_eq!(receiver_length("!x"), Ok(1));
    assert_eq!(receiver_length("(a) !x"), Ok(1));
    assert_eq!(receiver_length("1 !x"), Ok(1));
    assert_eq!(receiver_length("m !x"), Ok(3));
    assert_eq!(receiver_length("x!.y"), Err(ScanError::BangBeforePunctuation));
    assert_eq!(receiver_length("x !"), Err(ScanError::BangBeforePunctuation));
}

#[test]
fn scanner_on_unsupported_punctuation() {
    assert_eq!(receiver_length("a # b"), Err(ScanError::UnsupportedPunctuation('#')));
    assert_eq!(receiver_length("a @ b"), Err(ScanError::UnsupportedPunctuation('@')));
    assert_eq!(receiver_length("a ~ b"), Err(ScanError::UnsupportedPunctuation('~')));
    assert_eq!(receiver_length("a $ b"), Err(ScanError::UnsupportedPunctuation('$')));
    assert_eq!(failure("a # b.f!()"), RewriteError::Scan(ScanError::UnsupportedPunctuation('#')));
}

#[test]
fn scanner_on_prefix_and_infix_operators() {
    assert_eq!(receiver_length("1 - 2"), Ok(1));
    assert_eq!(receiver_length("(a) * b"), Ok(1));
    assert_eq!(receiver_length("[a] & b"), Ok(1));
    assert_eq!(receiver_length("- x"), Ok(2));
    assert_eq!(receiver_length("; - x"), Ok(2));
    assert_eq!(receiver_length(", & x"), Ok(2));
    assert_eq!(receiver_length("= * x"), Ok(2));
    assert_eq!(receiver_length("a - b"), Ok(3));
    assert_eq!(receiver_length("{} - x"), Ok(3));
    assert_eq!(receiver_length("a && b"), Ok(1));
    assert_eq!(receiver_length("1 && b"), Ok(1));
    assert_eq!(receiver_length("1 & & b"), Ok(2));
    assert_eq!(receiver_length("1 - - b"), Ok(2));
    assert_eq!(receiver_length("1 && - b"), Ok(2));
    assert_eq!(receiver_length("&*x"), Ok(2));
    assert_eq!(receiver_length("& & x"), Ok(3));
    assert_eq!(receiver_length("&mut *x"), Ok(4));
}

#[test]
fn scanner_on_operators_it_cannot_place() {
    assert_eq!(receiver_length("a + - b"), Err(ScanError::AmbiguousOperator('-')));
    assert_eq!(receiver_length("a? - b"), Err(ScanError::AmbiguousOperator('-')));
    assert_eq!(receiver_length("! & b"), Err(ScanError::AmbiguousOperator('&')));
    assert_eq!(receiver_length("a: * b"), Err(ScanError::AmbiguousOperator('*')));
    assert_eq!(receiver_length("a < - - b"), Err(ScanError::AmbiguousOperator('-')));
    assert_eq!(failure("!&43.f!()"), RewriteError::Scan(ScanError::AmbiguousOperator('&')));
}

#[test]
fn scanner_on_blocks() {
    assert_eq!(receiver_length("{ a }"), Ok(1));
    assert_eq!(receiver_length("x ; { a }"), Ok(1));
    assert_eq!(receiver_length("x , { a }"), Ok(1));
    assert_eq!(receiver_length("x ! { a }"), Ok(3));
    assert_eq!(receiver_length("if c { a }"), Ok(3));
    assert_eq!(receiver_length("match c { a }"), Ok(3));
    assert_eq!(receiver_length("y if c { a }"), Ok(3));
    assert_eq!(receiver_length("& match c { a }"), Ok(3));
    assert_eq!(receiver_length("if c { a } else { b }"), Ok(5));
    assert_eq!(receiver_length("z if c { a } else if d { b } else { e }"), Ok(9));
    assert_eq!(receiver_length("if f(x) { a }"), Ok(4));
    assert_eq!(receiver_length("Foo { a }"), Ok(2));
    assert_eq!(receiver_length("(x) { a }"), Ok(2));
    assert_eq!(receiver_length("5 { a }"), Ok(2));
    assert_eq!(receiver_length("5 c { a }"), Ok(3));
}

#[test]
fn scanner_on_blocks_it_does_not_support() {
    assert_eq!(receiver_length("= { a }"), Err(ScanError::UnsupportedBeforeBlock('=')));
    assert_eq!(receiver_length("|x| { a }"), Err(ScanError::UnsupportedBeforeBlock('|')));
    assert_eq!(receiver_length("x . { a }"), Err(ScanError::UnsupportedBeforeBlock('.')));
    assert_eq!(receiver_length("if a == b { c }"), Err(ScanError::UnsupportedBeforeCondition('=')));
    assert_eq!(receiver_length("if let p = e { c }"), Err(ScanError::UnsupportedBeforeCondition('=')));
    assert_eq!(receiver_length("; x { c }"), Err(ScanError::UnsupportedBeforeCondition(';')));
    assert_eq!(receiver_length("while c { a }"), Err(ScanError::UnsupportedBlockHead));
    assert_eq!(receiver_length("else match c { a }"), Err(ScanError::UnsupportedBlockHead));
    assert_eq!(receiver_length("x (y) c { a }"), Err(ScanError::UnsupportedBlockHead));
    assert_eq!(receiver_length("else { b }"), Err(ScanError::MissingBlock));
    assert_eq!(receiver_length("x else { b }"), Err(ScanError::MissingBlock));
    assert_eq!(receiver_length("x else if d { b }"), Err(ScanError::MissingBlock));
    assert_eq!(receiver_length("else if d { b }"), Err(ScanError::MissingBlock));
    assert_eq!(receiver_length("if a # b { c }"), Err(ScanError::UnsupportedPunctuation('#')));
}

#[test]
fn first_failure_is_reported() {
    assert_eq!(failure(".f!(a # b.g!())"), RewriteError::Scan(ScanError::UnsupportedPunctuation('#')));
    assert_eq!(failure(".f!() a # b.g!()"), RewriteError::EmptyReceiver);
    assert_eq!(failure("a # b.g!() .f!()"), RewriteError::Scan(ScanError::UnsupportedPunctuation('#')));
    assert_eq!(failure("x; .f!()"), RewriteError::EmptyReceiver);
    assert_eq!(failure("x..f!(a)"), RewriteError::EmptyReceiver);
}
