//! The pieces a log-format template is drawn in: literal text, the braces
//! of each placeholder, its field name, and its type when one is given.

use vstd::prelude::*;

use crate::text::{chars_eq, chars_of, string_of};

verus! {

/// The role of one piece of a template.
#[derive(Clone, Copy, Debug, PartialEq, Eq, Structural)]
pub enum TemplatePiece {
    /// Text matched literally.
    Literal,
    /// An opening or closing brace of a placeholder.
    Brace,
    /// The field name of a placeholder.
    Name,
    /// The colon between a field name and its type.
    Colon,
    /// A type the grammar knows: `token`, `number`, `path` or `text`.
    KnownType,
    /// Any other type.
    UnknownType,
    /// What follows a brace that is never closed.
    Unclosed,
}

/// The position of the first `c` in `s`, or `s.len()` when there is none.
pub open spec fn find_char(s: Seq<char>, c: char) -> nat
    decreases s.len(),
{
    if s.len() == 0 {
        0
    } else if s[0] == c {
        0
    } else {
        1 + find_char(s.drop_first(), c)
    }
}

/// `find_char` is at most the length, finds `c`, and nothing before it is `c`.
pub proof fn lemma_find_char(s: Seq<char>, c: char)
    ensures
        find_char(s, c) <= s.len(),
        find_char(s, c) < s.len() ==> s[find_char(s, c) as int] == c,
        forall|j: int| 0 <= j < find_char(s, c) ==> s[j] != c,
    decreases s.len(),
{
    if s.len() > 0 && s[0] != c {
        lemma_find_char(s.drop_first(), c);
        assert forall|j: int| 0 <= j < find_char(s, c) implies s[j] != c by {
            if j > 0 {
                assert(s[j] == s.drop_first()[j - 1]);
            }
        }
    }
}

/// A position with no `c` before it, and `c` or the end at it, is `find_char`.
proof fn lemma_find_char_at(s: Seq<char>, c: char, i: int)
    requires
        0 <= i <= s.len(),
        forall|j: int| 0 <= j < i ==> s[j] != c,
        i < s.len() ==> s[i] == c,
    ensures
        find_char(s, c) == i,
    decreases s.len(),
{
    if s.len() > 0 && s[0] != c {
        assert forall|j: int| 0 <= j < i - 1 implies s.drop_first()[j] != c by {
            assert(s.drop_first()[j] == s[j + 1]);
        }
        lemma_find_char_at(s.drop_first(), c, i - 1);
    }
}

/// The types the template grammar knows.
pub open spec fn known_type(t: Seq<char>) -> bool {
    t == "token"@ || t == "number"@ || t == "path"@ || t == "text"@
}

/// The pieces of a placeholder's body: its name, then, after the first
/// colon, the colon and the type.
pub open spec fn placeholder_pieces(body: Seq<char>) -> Seq<(Seq<char>, TemplatePiece)> {
    let colon = find_char(body, ':');
    if colon < body.len() {
        let ty = body.skip(colon + 1int);
        seq![
            (body.take(colon as int), TemplatePiece::Name),
            (":"@, TemplatePiece::Colon),
            (ty, if known_type(ty) { TemplatePiece::KnownType } else { TemplatePiece::UnknownType }),
        ]
    } else {
        seq![(body, TemplatePiece::Name)]
    }
}

/// The pieces of a template, in order: literal runs between placeholders,
/// each placeholder as its braces around the pieces of its body, and after
/// a brace that is never closed, the rest of the template as one piece.
pub open spec fn template_pieces(s: Seq<char>) -> Seq<(Seq<char>, TemplatePiece)>
    decreases s.len(),
{
    let open = find_char(s, '{');
    if open >= s.len() {
        if s.len() == 0 {
            seq![]
        } else {
            seq![(s, TemplatePiece::Literal)]
        }
    } else {
        let literal: Seq<(Seq<char>, TemplatePiece)> = if open == 0 {
            seq![]
        } else {
            seq![(s.take(open as int), TemplatePiece::Literal)]
        };
        let after = s.skip(open + 1int);
        let close = find_char(after, '}');
        if close >= after.len() {
            literal + seq![("{"@, TemplatePiece::Brace), (after, TemplatePiece::Unclosed)]
        } else {
            literal + seq![("{"@, TemplatePiece::Brace)] + placeholder_pieces(after.take(close as int))
                + seq![("}"@, TemplatePiece::Brace)] + template_pieces(after.skip(close + 1int))
        }
    }
}

/// The text of the pieces, joined in order.
pub open spec fn joined(pieces: Seq<(Seq<char>, TemplatePiece)>) -> Seq<char>
    decreases pieces.len(),
{
    if pieces.len() == 0 {
        seq![]
    } else {
        pieces[0].0 + joined(pieces.drop_first())
    }
}

proof fn lemma_joined_concat(a: Seq<(Seq<char>, TemplatePiece)>, b: Seq<(Seq<char>, TemplatePiece)>)
    ensures
        joined(a + b) == joined(a) + joined(b),
    decreases a.len(),
{
    if a.len() == 0 {
        assert(a + b =~= b);
        assert(joined(a) + joined(b) =~= joined(b));
    } else {
        assert((a + b).drop_first() =~= a.drop_first() + b);
        lemma_joined_concat(a.drop_first(), b);
        assert(joined(a) + joined(b) =~= a[0].0 + (joined(a.drop_first()) + joined(b)));
    }
}

proof fn lemma_joined_single(text: Seq<char>, piece: TemplatePiece)
    ensures
        joined(seq![(text, piece)]) == text,
{
    let one = seq![(text, piece)];
    assert(one.drop_first() =~= Seq::<(Seq<char>, TemplatePiece)>::empty());
    assert(joined(one.drop_first()) == Seq::<char>::empty());
    assert(joined(one) == one[0].0 + joined(one.drop_first()));
    assert(text + Seq::<char>::empty() =~= text);
}

proof fn lemma_placeholder_rebuilds_body(body: Seq<char>)
    ensures
        joined(placeholder_pieces(body)) == body,
{
    let colon = find_char(body, ':');
    lemma_find_char(body, ':');
    reveal_strlit(":");
    if colon < body.len() {
        let ty = body.skip(colon + 1int);
        let kind = if known_type(ty) { TemplatePiece::KnownType } else { TemplatePiece::UnknownType };
        let name = seq![(body.take(colon as int), TemplatePiece::Name)];
        let sep = seq![(":"@, TemplatePiece::Colon)];
        let last = seq![(ty, kind)];
        assert(placeholder_pieces(body) =~= name + sep + last);
        lemma_joined_concat(name + sep, last);
        lemma_joined_concat(name, sep);
        lemma_joined_single(body.take(colon as int), TemplatePiece::Name);
        lemma_joined_single(":"@, TemplatePiece::Colon);
        lemma_joined_single(ty, kind);
        assert(body =~= body.take(colon as int) + ":"@ + ty);
    } else {
        lemma_joined_single(body, TemplatePiece::Name);
    }
}

/// Law: the pieces of a template, joined in order, give back the template;
/// nothing is lost or added in drawing it.
pub proof fn law_pieces_rebuild_template(s: Seq<char>)
    ensures
        joined(template_pieces(s)) == s,
    decreases s.len(),
{
    let open = find_char(s, '{');
    lemma_find_char(s, '{');
    reveal_strlit("{");
    reveal_strlit("}");
    if open >= s.len() {
        if s.len() == 0 {
        } else {
            lemma_joined_single(s, TemplatePiece::Literal);
        }
    } else {
        let literal: Seq<(Seq<char>, TemplatePiece)> = if open == 0 {
            seq![]
        } else {
            seq![(s.take(open as int), TemplatePiece::Literal)]
        };
        assert(joined(literal) == s.take(open as int)) by {
            if open == 0 {
                assert(s.take(0) =~= Seq::<char>::empty());
            } else {
                lemma_joined_single(s.take(open as int), TemplatePiece::Literal);
            }
        }
        let after = s.skip(open + 1int);
        let close = find_char(after, '}');
        lemma_find_char(after, '}');
        let brace_open = seq![("{"@, TemplatePiece::Brace)];
        lemma_joined_single("{"@, TemplatePiece::Brace);
        assert(s =~= s.take(open as int) + "{"@ + after);
        if close >= after.len() {
            let unclosed = seq![(after, TemplatePiece::Unclosed)];
            assert(seq![("{"@, TemplatePiece::Brace), (after, TemplatePiece::Unclosed)] =~= brace_open + unclosed);
            lemma_joined_concat(literal, brace_open + unclosed);
            lemma_joined_concat(brace_open, unclosed);
            lemma_joined_single(after, TemplatePiece::Unclosed);
        } else {
            let body = after.take(close as int);
            let tail = after.skip(close + 1int);
            let inner = placeholder_pieces(body);
            let brace_close = seq![("}"@, TemplatePiece::Brace)];
            let rest = template_pieces(tail);
            law_pieces_rebuild_template(tail);
            lemma_placeholder_rebuilds_body(body);
            lemma_joined_single("}"@, TemplatePiece::Brace);
            lemma_joined_concat(literal + brace_open + inner + brace_close, rest);
            lemma_joined_concat(literal + brace_open + inner, brace_close);
            lemma_joined_concat(literal + brace_open, inner);
            lemma_joined_concat(literal, brace_open);
            assert(after =~= body + "}"@ + tail);
            assert(s =~= s.take(open as int) + "{"@ + body + "}"@ + tail);
        }
    }
}

/// The pieces as text and role.
pub open spec fn pieces_view(v: Seq<(String, TemplatePiece)>) -> Seq<(Seq<char>, TemplatePiece)> {
    v.map_values(|p: (String, TemplatePiece)| (p.0@, p.1))
}

/// The first `c` in `cs[start..end]`, or `end`.
fn find_from(cs: &Vec<char>, c: char, start: usize, end: usize) -> (r: usize)
    requires
        start <= end <= cs.len(),
    ensures
        start <= r <= end,
        r - start == find_char(cs@.subrange(start as int, end as int), c),
{
    let mut i: usize = start;
    while i < end && cs[i] != c
        invariant
            start <= i <= end,
            end <= cs.len(),
            forall|j: int| start <= j < i ==> cs@[j] != c,
        decreases end - i,
    {
        i += 1;
    }
    proof {
        let sub = cs@.subrange(start as int, end as int);
        assert forall|j: int| 0 <= j < i - start implies sub[j] != c by {
            assert(sub[j] == cs@[start + j]);
        }
        lemma_find_char_at(sub, c, i - start);
    }
    i
}

/// The text of `cs[start..end]`.
fn text_of(cs: &Vec<char>, start: usize, end: usize) -> (s: String)
    requires
        start <= end <= cs.len(),
    ensures
        s@ == cs@.subrange(start as int, end as int),
{
    string_of(vstd::slice::slice_subrange(cs.as_slice(), start, end))
}

/// Whether `cs[start..end]` is a type the grammar knows.
fn is_known_type(cs: &Vec<char>, start: usize, end: usize) -> (known: bool)
    requires
        start <= end <= cs.len(),
    ensures
        known == known_type(cs@.subrange(start as int, end as int)),
{
    let ty = vstd::slice::slice_subrange(cs.as_slice(), start, end);
    let token = chars_of("token");
    let number = chars_of("number");
    let path = chars_of("path");
    let text = chars_of("text");
    chars_eq(ty, token.as_slice()) || chars_eq(ty, number.as_slice()) || chars_eq(ty, path.as_slice())
        || chars_eq(ty, text.as_slice())
}

/// Appends one piece.
fn push_piece(out: &mut Vec<(String, TemplatePiece)>, text: String, piece: TemplatePiece)
    ensures
        pieces_view(final(out)@) == pieces_view(old(out)@).push((text@, piece)),
{
    let ghost before = out@;
    out.push((text, piece));
    proof {
        assert(pieces_view(out@) =~= pieces_view(before).push((text@, piece)));
    }
}

/// Splits a template into the pieces it is drawn in (see `template_pieces`).
#[verifier::rlimit(40)]
pub fn template_layout(source: &str) -> (pieces: Vec<(String, TemplatePiece)>)
    ensures
        pieces_view(pieces@) == template_pieces(source@),
{
    let cs = chars_of(source);
    let n = cs.len();
    let mut out: Vec<(String, TemplatePiece)> = Vec::new();
    let mut cursor: usize = 0;
    proof {
        assert(cs@.subrange(0, n as int) =~= cs@);
        assert(pieces_view(out@) =~= Seq::<(Seq<char>, TemplatePiece)>::empty());
        assert(pieces_view(out@) + template_pieces(cs@) =~= template_pieces(cs@));
    }
    while cursor < n
        invariant
            cs@ == source@,
            n == cs.len(),
            cursor <= n,
            pieces_view(out@) + template_pieces(cs@.subrange(cursor as int, n as int)) == template_pieces(
                source@,
            ),
        decreases n - cursor,
    {
        let ghost rest = cs@.subrange(cursor as int, n as int);
        let ghost done = pieces_view(out@);
        let open = find_from(&cs, '{', cursor, n);
        if open == n {
            push_piece(&mut out, text_of(&cs, cursor, n), TemplatePiece::Literal);
            proof {
                assert(template_pieces(rest) == seq![(rest, TemplatePiece::Literal)]);
                assert(cs@.subrange(n as int, n as int) =~= Seq::<char>::empty());
                assert(pieces_view(out@) + template_pieces(cs@.subrange(n as int, n as int)) =~= done
                    + template_pieces(rest));
            }
            cursor = n;
        } else {
            let ghost after = rest.skip(open - cursor + 1);
            proof {
                assert(after =~= cs@.subrange(open + 1, n as int));
                assert(rest.take(open - cursor) =~= cs@.subrange(cursor as int, open as int));
            }
            let ghost literal: Seq<(Seq<char>, TemplatePiece)> = if open == cursor {
                seq![]
            } else {
                seq![(rest.take(open - cursor), TemplatePiece::Literal)]
            };
            if open > cursor {
                push_piece(&mut out, text_of(&cs, cursor, open), TemplatePiece::Literal);
            }
            assert(pieces_view(out@) =~= done + literal);
            proof {
                reveal_strlit("{");
                reveal_strlit("}");
                reveal_strlit(":");
            }
            push_piece(&mut out, "{".to_owned(), TemplatePiece::Brace);
            let close = find_from(&cs, '}', open + 1, n);
            if close == n {
                push_piece(&mut out, text_of(&cs, open + 1, n), TemplatePiece::Unclosed);
                proof {
                    assert(template_pieces(rest) == literal + seq![("{"@, TemplatePiece::Brace), (after, TemplatePiece::Unclosed)]);
                    assert(cs@.subrange(n as int, n as int) =~= Seq::<char>::empty());
                    assert(pieces_view(out@) + template_pieces(cs@.subrange(n as int, n as int)) =~= done
                        + template_pieces(rest));
                }
                cursor = n;
            } else {
                let ghost body = after.take(close - open - 1);
                let ghost before_body = pieces_view(out@);
                proof {
                    assert(body =~= cs@.subrange(open + 1, close as int));
                }
                let colon = find_from(&cs, ':', open + 1, close);
                if colon < close {
                    push_piece(&mut out, text_of(&cs, open + 1, colon), TemplatePiece::Name);
                    push_piece(&mut out, ":".to_owned(), TemplatePiece::Colon);
                    let kind = if is_known_type(&cs, colon + 1, close) {
                        TemplatePiece::KnownType
                    } else {
                        TemplatePiece::UnknownType
                    };
                    push_piece(&mut out, text_of(&cs, colon + 1, close), kind);
                    proof {
                        assert(body.take(colon - open - 1) =~= cs@.subrange(open + 1, colon as int));
                        assert(body.skip(colon - open) =~= cs@.subrange(colon + 1, close as int));
                        assert(pieces_view(out@) =~= before_body + placeholder_pieces(body));
                    }
                } else {
                    push_piece(&mut out, text_of(&cs, open + 1, close), TemplatePiece::Name);
                    proof {
                        assert(pieces_view(out@) =~= before_body + placeholder_pieces(body));
                    }
                }
                push_piece(&mut out, "}".to_owned(), TemplatePiece::Brace);
                proof {
                    assert(after.skip(close - open) =~= cs@.subrange(close + 1, n as int));
                    assert(template_pieces(rest) == literal + seq![("{"@, TemplatePiece::Brace)]
                        + placeholder_pieces(body) + seq![("}"@, TemplatePiece::Brace)]
                        + template_pieces(cs@.subrange(close + 1, n as int)));
                    assert(pieces_view(out@) + template_pieces(cs@.subrange(close + 1, n as int))
                        =~= done + template_pieces(rest));
                }
                cursor = close + 1;
            }
        }
    }
    proof {
        assert(cs@.subrange(cursor as int, n as int) =~= Seq::<char>::empty());
        assert(pieces_view(out@) + Seq::<(Seq<char>, TemplatePiece)>::empty() =~= pieces_view(out@));
    }
    out
}

} // verus!
