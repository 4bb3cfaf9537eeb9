use haystack_ui::format_syntax::TemplatePiece::{
    Brace, Colon, KnownType, Literal, Name, Unclosed, UnknownType,
};
use haystack_ui::format_syntax::{template_layout, TemplatePiece};

fn pieces(source: &str) -> Vec<(String, TemplatePiece)> {
    template_layout(source)
}

fn p(text: &str, piece: TemplatePiece) -> (String, TemplatePiece) {
    (text.to_string(), piece)
}

#[test]
fn named_fields_are_drawn_between_braces() {
    assert_eq!(
        pieces("{time} [{module}] {log}"),
        vec![
            p("{", Brace),
            p("time", Name),
            p("}", Brace),
            p(" [", Literal),
            p("{", Brace),
            p("module", Name),
            p("}", Brace),
            p("] ", Literal),
            p("{", Brace),
            p("log", Name),
            p("}", Brace),
        ]
    );
}

#[test]
fn typed_fields_show_whether_the_type_is_known() {
    assert_eq!(
        pieces("{count:number}x"),
        vec![p("{", Brace), p("count", Name), p(":", Colon), p("number", KnownType), p("}", Brace), p("x", Literal)]
    );
    assert_eq!(
        pieces("{a:int}"),
        vec![p("{", Brace), p("a", Name), p(":", Colon), p("int", UnknownType), p("}", Brace)]
    );
    assert_eq!(
        pieces("{a:b:c}"),
        vec![p("{", Brace), p("a", Name), p(":", Colon), p("b:c", UnknownType), p("}", Brace)]
    );
    for ty in ["token", "path", "text"] {
        assert_eq!(pieces(&format!("{{f:{ty}}}"))[3], p(ty, KnownType));
    }
}

#[test]
fn an_unclosed_brace_takes_the_rest() {
    assert_eq!(pieces("ab{cd {x"), vec![p("ab", Literal), p("{", Brace), p("cd {x", Unclosed)]);
    assert_eq!(pieces("ab{cd {x}"), vec![p("ab", Literal), p("{", Brace), p("cd {x", Name), p("}", Brace)]);
    assert_eq!(pieces("{"), vec![p("{", Brace), p("", Unclosed)]);
    assert_eq!(pieces("{}"), vec![p("{", Brace), p("", Name), p("}", Brace)]);
    assert_eq!(pieces(""), vec![]);
    assert_eq!(pieces("plain é"), vec![p("plain é", Literal)]);
}

#[test]
fn joined_pieces_give_back_the_template() {
    for source in ["{time} {log}", "ab{cd {x", "{a:b:c}}{", "", "é{ü:text}ö", "{}{}{"] {
        let text: String = pieces(source).into_iter().map(|(text, _)| text).collect();
        assert_eq!(text, source);
    }
}
