//! What the parser makes of a text, stated over its characters: where each
//! piece of markup ends and what it comes to.

use vstd::prelude::*;
use crate::dom::{NodeKind, NodeTree};
use crate::text::lowercase;

verus! {

/// The kinds of characters that the parser tells apart.
#[derive(Debug, Clone, Copy, PartialEq, Eq, Structural)]
pub enum CharClass {
    /// White space.
    Whitespace,
    /// A character of a tag name.
    TagName,
    /// A character of an attribute name.
    AttributeName,
    /// A character of an attribute value that is not quoted.
    AttributeValue,
    /// A character of a word of text: no white space and no `<`.
    Word,
    /// A character of a comment other than `<` and `-`.
    Comment,
    /// What may follow an attribute value: no white space and no `>`.
    ValueTail,
    /// Any character but the given one.
    Except(char),
}

/// Whether `c` is white space: a character with the Unicode property
/// `White_Space`.
pub open spec fn is_white_space(c: char) -> bool {
    ||| '\u{0009}' <= c <= '\u{000D}'
    ||| c == ' '
    ||| c == '\u{0085}'
    ||| c == '\u{00A0}'
    ||| c == '\u{1680}'
    ||| '\u{2000}' <= c <= '\u{200A}'
    ||| c == '\u{2028}'
    ||| c == '\u{2029}'
    ||| c == '\u{202F}'
    ||| c == '\u{205F}'
    ||| c == '\u{3000}'
}

/// Whether `c` may stand in a tag name: an ASCII letter or digit.
pub open spec fn valid_tag_name(c: char) -> bool {
    ('0' <= c <= '9') || ('a' <= c <= 'z') || ('A' <= c <= 'Z')
}

/// Whether `c` is a control character.
pub open spec fn control(c: char) -> bool {
    c == '\u{007F}' || c <= '\u{001F}' || ('\u{0080}' <= c <= '\u{009F}')
}

/// Whether `c` ends an attribute name.
pub open spec fn excluded_name(c: char) -> bool {
    c == ' ' || c == '"' || c == '\'' || c == '>' || c == '/' || c == '='
}

/// Whether `c` may stand in an attribute name.
pub open spec fn valid_attribute_name(c: char) -> bool {
    !excluded_name(c) && !control(c)
}

/// Whether `c` may stand in an attribute value that is not quoted.
pub open spec fn valid_attribute_value(c: char) -> bool {
    !(c == ' ' || c == '"' || c == '\'' || c == '=' || c == '<' || c == '>' || c == '`')
}

/// Whether `c` is of the kind `class`.
pub open spec fn in_class(class: CharClass, c: char) -> bool {
    match class {
        CharClass::Whitespace => is_white_space(c),
        CharClass::TagName => valid_tag_name(c),
        CharClass::AttributeName => valid_attribute_name(c),
        CharClass::AttributeValue => valid_attribute_value(c),
        CharClass::Word => !is_white_space(c) && c != '<',
        CharClass::Comment => c != '<' && c != '-',
        CharClass::ValueTail => !is_white_space(c) && c != '>',
        CharClass::Except(other) => c != other,
    }
}

/// The first index at or after `from` whose character is not of the kind
/// `class`; the length of `input` if there is none.
pub open spec fn scan(input: Seq<char>, from: int, class: CharClass) -> int
    decreases input.len() - from,
{
    if 0 <= from < input.len() && in_class(class, input[from]) {
        scan(input, from + 1, class)
    } else {
        from
    }
}

/// The character at `position`, if the input reaches that far.
pub open spec fn peek_at(input: Seq<char>, position: int) -> Option<char> {
    if 0 <= position < input.len() {
        Some(input[position])
    } else {
        None
    }
}

/// The position after the character at `position`; `position` itself at the
/// end of the input.
pub open spec fn step(input: Seq<char>, position: int) -> int {
    if 0 <= position < input.len() {
        position + 1
    } else {
        position
    }
}

/// Whether the character at `position` is `c`.
pub open spec fn at(input: Seq<char>, position: int, c: char) -> bool {
    peek_at(input, position) == Some(c)
}

/// `scan` never goes back, and stays within the input.
pub proof fn lemma_scan_bounds(input: Seq<char>, from: int, class: CharClass)
    ensures
        from <= scan(input, from, class),
        from <= input.len() ==> scan(input, from, class) <= input.len(),
    decreases input.len() - from,
{
    if 0 <= from < input.len() && in_class(class, input[from]) {
        lemma_scan_bounds(input, from + 1, class);
    }
}

/// `scan` goes on over a character of its kind.
pub proof fn lemma_scan_advances(input: Seq<char>, from: int, class: CharClass)
    requires
        0 <= from < input.len(),
        in_class(class, input[from]),
    ensures
        from < scan(input, from, class),
{
    lemma_scan_bounds(input, from + 1, class);
}

/// Where `scan` stops within the input, a character of another kind stands.
pub proof fn lemma_scan_stops(input: Seq<char>, from: int, class: CharClass)
    requires
        0 <= from,
    ensures
        scan(input, from, class) < input.len() ==> !in_class(
            class,
            input[scan(input, from, class)],
        ),
    decreases input.len() - from,
{
    if 0 <= from < input.len() && in_class(class, input[from]) {
        lemma_scan_stops(input, from + 1, class);
    }
}

/// The text that starts at `position`, and where it ends: the words up to
/// the next `<`, each run of white space before a word or before the end
/// made one space.
pub open spec fn text_from(input: Seq<char>, position: int) -> (Seq<char>, int)
    decreases input.len() - position,
{
    if position < 0 || position >= input.len() || input[position] == '<' {
        (Seq::empty(), position)
    } else {
        let after_space = scan(input, position, CharClass::Whitespace);
        let after_word = scan(input, after_space, CharClass::Word);
        let space = if after_space > position {
            seq![' ']
        } else {
            Seq::empty()
        };
        let piece = space + input.subrange(after_space, after_word);
        proof {
            lemma_scan_bounds(input, position, CharClass::Whitespace);
            lemma_scan_bounds(input, after_space, CharClass::Word);
            if is_white_space(input[position]) {
                lemma_scan_advances(input, position, CharClass::Whitespace);
            } else {
                lemma_scan_advances(input, position, CharClass::Word);
            }
        }
        let (rest, end) = text_from(input, after_word);
        (piece + rest, end)
    }
}

/// The text that starts at `position` ends at or after it, within the input,
/// and after it where it starts with a character other than `<`.
pub proof fn lemma_text_bounds(input: Seq<char>, position: int)
    requires
        0 <= position <= input.len(),
    ensures
        position <= text_from(input, position).1 <= input.len(),
        position < input.len() && input[position] != '<' ==> position < text_from(
            input,
            position,
        ).1,
    decreases input.len() - position,
{
    if position < input.len() && input[position] != '<' {
        let after_space = scan(input, position, CharClass::Whitespace);
        lemma_scan_bounds(input, position, CharClass::Whitespace);
        let after_word = scan(input, after_space, CharClass::Word);
        lemma_scan_bounds(input, after_space, CharClass::Word);
        if is_white_space(input[position]) {
            lemma_scan_advances(input, position, CharClass::Whitespace);
        } else {
            lemma_scan_advances(input, position, CharClass::Word);
        }
        lemma_text_bounds(input, after_word);
    }
}

/// The attribute value that starts at `position`, and where it ends.
///
/// After white space, a quote opens a value that runs from the second
/// character after the quote up to the next quote of the same kind, which is
/// read too. Any other character is dropped, and the value is what follows it
/// of the characters that may stand in a value without quotes.
pub open spec fn attribute_value_from(input: Seq<char>, position: int) -> (Seq<char>, int) {
    let start = scan(input, position, CharClass::Whitespace);
    match peek_at(input, start) {
        Some(c) => if c == '"' || c == '\'' {
            let from = step(input, start + 1);
            let to = scan(input, from, CharClass::Except(c));
            (input.subrange(from, to), step(input, to))
        } else {
            let to = scan(input, start + 1, CharClass::AttributeValue);
            (input.subrange(start + 1, to), to)
        },
        None => (Seq::empty(), start),
    }
}

/// Where the attribute that starts at `position` ends, with its name and its
/// value.
///
/// The name is the lowercase form of the characters of a name after white
/// space. The value follows an `=` sign, with what trails it up to white
/// space or `>`, and is empty where there is no sign. Where all of this reads
/// no character at all, one character is skipped.
pub open spec fn attribute_from(input: Seq<char>, position: int) -> (Seq<char>, Seq<char>, int) {
    let name_start = scan(input, position, CharClass::Whitespace);
    let name_end = scan(input, name_start, CharClass::AttributeName);
    let name = lowercase(input.subrange(name_start, name_end));
    let after_name = scan(input, name_end, CharClass::Whitespace);
    let (value, end) = if at(input, after_name, '=') {
        let (value, after_value) = attribute_value_from(
            input,
            scan(input, after_name + 1, CharClass::Whitespace),
        );
        let after_tail = scan(input, after_value, CharClass::ValueTail);
        (value, scan(input, after_tail, CharClass::Whitespace))
    } else {
        (Seq::empty(), after_name)
    };
    (name, value, if end > position { end } else { position + 1 })
}

/// An attribute value ends at or after its start, within the input.
pub proof fn lemma_attribute_value_bounds(input: Seq<char>, position: int)
    requires
        0 <= position <= input.len(),
    ensures
        position <= attribute_value_from(input, position).1 <= input.len(),
{
    let start = scan(input, position, CharClass::Whitespace);
    lemma_scan_bounds(input, position, CharClass::Whitespace);
    match peek_at(input, start) {
        Some(c) => {
            if c == '"' || c == '\'' {
                lemma_scan_bounds(input, step(input, start + 1), CharClass::Except(c));
            } else {
                lemma_scan_bounds(input, start + 1, CharClass::AttributeValue);
            }
        },
        None => {},
    }
}

/// An attribute ends after its start, within the input.
pub proof fn lemma_attribute_bounds(input: Seq<char>, position: int)
    requires
        0 <= position < input.len(),
    ensures
        position < attribute_from(input, position).2 <= input.len(),
{
    let name_start = scan(input, position, CharClass::Whitespace);
    lemma_scan_bounds(input, position, CharClass::Whitespace);
    let name_end = scan(input, name_start, CharClass::AttributeName);
    lemma_scan_bounds(input, name_start, CharClass::AttributeName);
    let after_name = scan(input, name_end, CharClass::Whitespace);
    lemma_scan_bounds(input, name_end, CharClass::Whitespace);
    if at(input, after_name, '=') {
        let value_start = scan(input, after_name + 1, CharClass::Whitespace);
        lemma_scan_bounds(input, after_name + 1, CharClass::Whitespace);
        lemma_attribute_value_bounds(input, value_start);
        let after_value = attribute_value_from(input, value_start).1;
        let after_tail = scan(input, after_value, CharClass::ValueTail);
        lemma_scan_bounds(input, after_value, CharClass::ValueTail);
        lemma_scan_bounds(input, after_tail, CharClass::Whitespace);
    }
}

/// `attributes` with the attributes that start at `position` and run up to
/// the next `>` or the end of the input, and where they end. An attribute
/// replaces an earlier one of the same name.
pub open spec fn attributes_onto(
    input: Seq<char>,
    position: int,
    attributes: Map<Seq<char>, Seq<char>>,
) -> (Map<Seq<char>, Seq<char>>, int)
    decreases input.len() - position,
{
    if position < 0 || position >= input.len() || input[position] == '>' {
        (attributes, position)
    } else {
        let (name, value, end) = attribute_from(input, position);
        proof {
            lemma_attribute_bounds(input, position);
        }
        attributes_onto(input, end, attributes.insert(name, value))
    }
}

/// The attributes of a tag whose name ends at `position`, and the position
/// after the `>` that closes the tag.
pub open spec fn attributes_from(input: Seq<char>, position: int) -> (
    Map<Seq<char>, Seq<char>>,
    int,
) {
    let (attributes, end) = attributes_onto(input, position, Map::empty());
    (attributes, step(input, end))
}

/// The attributes of a tag end at or after their start, within the input.
pub proof fn lemma_attributes_bounds(
    input: Seq<char>,
    position: int,
    attributes: Map<Seq<char>, Seq<char>>,
)
    requires
        0 <= position <= input.len(),
    ensures
        position <= attributes_onto(input, position, attributes).1 <= input.len(),
    decreases input.len() - position,
{
    if position < input.len() && input[position] != '>' {
        lemma_attribute_bounds(input, position);
        let (name, value, end) = attribute_from(input, position);
        lemma_attributes_bounds(input, end, attributes.insert(name, value));
    }
}

/// What one round of reading a comment comes to, from a position where a
/// `<`, a `-` or the end of the input stands.
pub enum CommentStep {
    /// The comment goes on after these characters, at this position.
    More(Seq<char>, int),
    /// The comment is closed at this position.
    Closed(int),
    /// The comment is given up at this position, and is empty.
    Dropped(int),
}

/// One round of reading a comment.
///
/// `-->` closes the comment; any other `-` or `--` belongs to it. After `<`,
/// a `!--` gives the comment up, with all up to the next `>`; so does `! --->`.
/// A beginning of the first that is not carried through belongs to the
/// comment as far as it went. A beginning of the second is read as far as it
/// went, and belongs to the comment without its last `-`; a `<! ` that no `-`
/// follows leaves nothing.
pub open spec fn comment_step(input: Seq<char>, position: int) -> CommentStep {
    if at(input, position, '<') {
        if at(input, position + 1, '!') {
            if at(input, position + 2, '-') {
                if at(input, position + 3, '-') {
                    CommentStep::Dropped(scan(input, position + 3, CharClass::Except('>')))
                } else {
                    CommentStep::More("<!-"@, position + 3)
                }
            } else if at(input, position + 2, ' ') {
                if at(input, position + 3, '-') {
                    if at(input, position + 4, '-') {
                        if at(input, position + 5, '-') {
                            if at(input, position + 6, '>') {
                                CommentStep::Dropped(position + 7)
                            } else {
                                CommentStep::More("<! --"@, position + 6)
                            }
                        } else {
                            CommentStep::More("<! -"@, position + 5)
                        }
                    } else {
                        CommentStep::More("<! "@, position + 4)
                    }
                } else {
                    CommentStep::More(Seq::empty(), position + 3)
                }
            } else {
                CommentStep::More("<!"@, position + 2)
            }
        } else {
            CommentStep::More(seq!['<'], position + 1)
        }
    } else if at(input, position, '-') {
        if at(input, position + 1, '-') {
            if at(input, position + 2, '>') {
                CommentStep::Closed(position + 3)
            } else {
                CommentStep::More("--"@, position + 2)
            }
        } else {
            CommentStep::More(seq!['-'], position + 1)
        }
    } else {
        CommentStep::More(Seq::empty(), position)
    }
}

/// Where a round of reading a comment ends.
pub open spec fn comment_step_end(step: CommentStep) -> int {
    match step {
        CommentStep::More(_, end) => end,
        CommentStep::Closed(end) => end,
        CommentStep::Dropped(end) => end,
    }
}

/// A round of reading a comment ends within the input, and after its start
/// where the input goes on.
pub proof fn lemma_comment_step_bounds(input: Seq<char>, position: int)
    requires
        0 <= position <= input.len(),
        position < input.len() ==> input[position] == '<' || input[position] == '-',
    ensures
        position <= comment_step_end(comment_step(input, position)) <= input.len(),
        position < input.len() ==> position < comment_step_end(comment_step(input, position)),
{
    if at(input, position, '<') && at(input, position + 1, '!') && at(input, position + 2, '-')
        && at(input, position + 3, '-') {
        lemma_scan_bounds(input, position + 3, CharClass::Except('>'));
    }
}

/// The body of a comment from `position` on, and where it ends: `None` where
/// the comment is given up.
pub open spec fn comment_body(input: Seq<char>, position: int) -> (Option<Seq<char>>, int)
    decreases input.len() - position,
{
    if position < 0 || position >= input.len() {
        (Some(Seq::empty()), position)
    } else {
        let stop = scan(input, position, CharClass::Comment);
        let lead = input.subrange(position, stop);
        proof {
            lemma_scan_bounds(input, position, CharClass::Comment);
            lemma_scan_stops(input, position, CharClass::Comment);
            lemma_comment_step_bounds(input, stop);
        }
        match comment_step(input, stop) {
            CommentStep::More(piece, next) => match comment_body(input, next) {
                (Some(rest), end) => (Some(lead + piece + rest), end),
                (None, end) => (None, end),
            },
            CommentStep::Closed(end) => (Some(lead), end),
            CommentStep::Dropped(end) => (None, end),
        }
    }
}

/// The body that follows the opening of a comment that has read `opening`.
pub open spec fn comment_after(input: Seq<char>, position: int, opening: Seq<char>) -> (
    Seq<char>,
    int,
) {
    match comment_body(input, position) {
        (Some(rest), end) => (opening + rest, end),
        (None, end) => (Seq::empty(), end),
    }
}

/// The comment that follows `<!` at `position`, and where it ends.
///
/// Without `--` there is no comment and all up to the next `>` is passed
/// over. After `--` any character but `>` is read and ends the comment, which
/// is empty. A `>` there is read; a character other than `>` after it is read
/// and ends the comment too; otherwise the body follows, and starts with a
/// `-`.
pub open spec fn comment_from(input: Seq<char>, position: int) -> (Seq<char>, int) {
    if at(input, position, '-') {
        if at(input, position + 1, '-') {
            let opened = position + 2;
            match peek_at(input, opened) {
                Some(c) => if c != '>' {
                    (Seq::empty(), opened + 1)
                } else {
                    match peek_at(input, opened + 1) {
                        Some(d) => if d != '>' {
                            (Seq::empty(), opened + 2)
                        } else {
                            comment_after(input, opened + 1, seq!['-'])
                        },
                        None => comment_after(input, opened + 1, seq!['-']),
                    }
                },
                None => comment_after(input, opened, Seq::empty()),
            }
        } else {
            (Seq::empty(), scan(input, position + 1, CharClass::Except('>')))
        }
    } else {
        (Seq::empty(), scan(input, position, CharClass::Except('>')))
    }
}

/// The body of a comment ends at or after its start, within the input.
pub proof fn lemma_comment_body_bounds(input: Seq<char>, position: int)
    requires
        0 <= position <= input.len(),
    ensures
        position <= comment_body(input, position).1 <= input.len(),
    decreases input.len() - position,
{
    if position < input.len() {
        let stop = scan(input, position, CharClass::Comment);
        lemma_scan_bounds(input, position, CharClass::Comment);
        lemma_scan_stops(input, position, CharClass::Comment);
        lemma_comment_step_bounds(input, stop);
        match comment_step(input, stop) {
            CommentStep::More(piece, next) => {
                lemma_comment_body_bounds(input, next);
            },
            _ => {},
        }
    }
}

/// A comment ends at or after its start, within the input.
pub proof fn lemma_comment_bounds(input: Seq<char>, position: int)
    requires
        0 <= position <= input.len(),
    ensures
        position <= comment_from(input, position).1 <= input.len(),
{
    if at(input, position, '-') {
        if at(input, position + 1, '-') {
            lemma_comment_body_bounds(input, position + 2);
            if position + 3 <= input.len() {
                lemma_comment_body_bounds(input, position + 3);
            }
        } else {
            lemma_scan_bounds(input, position + 1, CharClass::Except('>'));
        }
    } else {
        lemma_scan_bounds(input, position, CharClass::Except('>'));
    }
}

/// What was parsed: the nodes, the position after them, and the names of
/// the closing tags that are not yet paired with an element.
pub struct Parsed {
    pub nodes: Seq<NodeTree>,
    pub position: int,
    pub queue: Seq<Seq<char>>,
}

/// A node without children.
pub open spec fn leaf(kind: NodeKind) -> NodeTree {
    NodeTree { kind, children: Seq::empty() }
}

/// What an element comes to once all up to its closing tag was read, and the
/// queue of closing tags after it.
///
/// The element takes the first name of the queue. Where that is its own tag
/// name, or the queue is empty, it keeps the nodes that were read as its
/// children. Where it is another name, that name stays in the queue, and the
/// nodes follow the element as its siblings.
pub open spec fn paired(
    tag_name: Seq<char>,
    attributes: Map<Seq<char>, Seq<char>>,
    inner: Seq<NodeTree>,
    queue: Seq<Seq<char>>,
) -> (Seq<NodeTree>, Seq<Seq<char>>) {
    let kind = NodeKind::Element(tag_name, attributes);
    if queue.len() > 0 && queue[0] != tag_name {
        (seq![leaf(kind)] + inner, queue)
    } else if queue.len() > 0 {
        (seq![NodeTree { kind, children: inner }], queue.drop_first())
    } else {
        (seq![NodeTree { kind, children: inner }], queue)
    }
}

/// The nodes that start at `position`, up to the first closing tag or the
/// end of the input.
///
/// After white space, `</` starts a closing tag: its name goes to the end of
/// the queue, all up to the next `>` is read, and the nodes end. `<!` starts
/// a comment. Any other `<` starts an element: a tag name, attributes, and
/// the nodes up to its closing tag. Anything else is text.
#[verifier::opaque]
pub open spec fn nodes_from(input: Seq<char>, position: int, queue: Seq<Seq<char>>) -> Parsed
    decreases input.len() - position,
{
    if position < 0 || position >= input.len() {
        Parsed { nodes: Seq::empty(), position, queue }
    } else {
        let start = scan(input, position, CharClass::Whitespace);
        proof {
            lemma_scan_bounds(input, position, CharClass::Whitespace);
        }
        if at(input, start, '<') && at(input, start + 1, '/') {
            let name_start = scan(input, start + 2, CharClass::Whitespace);
            let name_end = scan(input, name_start, CharClass::TagName);
            let close = scan(input, name_end, CharClass::Except('>'));
            Parsed {
                nodes: Seq::empty(),
                position: step(input, close),
                queue: queue.push(input.subrange(name_start, name_end)),
            }
        } else {
            let (items, end, remaining) = if at(input, start, '<') {
                if at(input, start + 1, '!') {
                    let (content, end) = comment_from(input, start + 2);
                    (seq![leaf(NodeKind::Comment(content))], end, queue)
                } else {
                    let name_end = scan(input, start + 1, CharClass::TagName);
                    let (attributes, after_tag) = attributes_from(input, name_end);
                    proof {
                        lemma_scan_bounds(input, start + 1, CharClass::TagName);
                        lemma_attributes_bounds(input, name_end, Map::empty());
                    }
                    let inner = nodes_from(input, after_tag, queue);
                    let (items, remaining) = paired(
                        input.subrange(start + 1, name_end),
                        attributes,
                        inner.nodes,
                        inner.queue,
                    );
                    (items, inner.position, remaining)
                }
            } else {
                let (text, end) = text_from(input, start);
                (seq![leaf(NodeKind::Text(text))], end, queue)
            };
            // A node always ends after its start and within the input, so this is
            // the branch that is taken: see `lemma_nodes_comment` and those after it.
            if position < end <= input.len() {
                let rest = nodes_from(input, end, remaining);
                Parsed { nodes: items + rest.nodes, position: rest.position, queue: rest.queue }
            } else {
                Parsed { nodes: items, position: end, queue: remaining }
            }
        }
    }
}

/// The nodes that start at a position end at or after it, within the input.
pub proof fn lemma_nodes_bounds(input: Seq<char>, position: int, queue: Seq<Seq<char>>)
    requires
        0 <= position <= input.len(),
    ensures
        position <= nodes_from(input, position, queue).position <= input.len(),
    decreases input.len() - position,
{
    reveal(nodes_from);
    if position < input.len() {
        let start = scan(input, position, CharClass::Whitespace);
        lemma_scan_bounds(input, position, CharClass::Whitespace);
        if at(input, start, '<') && at(input, start + 1, '/') {
            let name_start = scan(input, start + 2, CharClass::Whitespace);
            lemma_scan_bounds(input, start + 2, CharClass::Whitespace);
            let name_end = scan(input, name_start, CharClass::TagName);
            lemma_scan_bounds(input, name_start, CharClass::TagName);
            lemma_scan_bounds(input, name_end, CharClass::Except('>'));
        } else {
            if at(input, start, '<') {
                if at(input, start + 1, '!') {
                    lemma_comment_bounds(input, start + 2);
                    let end = comment_from(input, start + 2).1;
                    lemma_nodes_bounds(input, end, queue);
                } else {
                    let name_end = scan(input, start + 1, CharClass::TagName);
                    lemma_scan_bounds(input, start + 1, CharClass::TagName);
                    lemma_attributes_bounds(input, name_end, Map::empty());
                    let after_tag = attributes_from(input, name_end).1;
                    lemma_nodes_bounds(input, after_tag, queue);
                    let inner = nodes_from(input, after_tag, queue);
                    let remaining = paired(
                        input.subrange(start + 1, name_end),
                        attributes_from(input, name_end).0,
                        inner.nodes,
                        inner.queue,
                    ).1;
                    lemma_nodes_bounds(input, inner.position, remaining);
                }
            } else {
                lemma_text_bounds(input, start);
                let end = text_from(input, start).1;
                lemma_nodes_bounds(input, end, queue);
            }
        }
    }
}

/// At the end of the input there are no nodes.
pub proof fn lemma_nodes_at_end(input: Seq<char>, position: int, queue: Seq<Seq<char>>)
    requires
        position >= input.len(),
    ensures
        nodes_from(input, position, queue) == (Parsed { nodes: Seq::empty(), position, queue }),
{
    reveal(nodes_from);
}

/// A closing tag ends the nodes.
pub proof fn lemma_nodes_closing(input: Seq<char>, position: int, queue: Seq<Seq<char>>)
    requires
        0 <= position < input.len(),
        at(input, scan(input, position, CharClass::Whitespace), '<'),
        at(input, scan(input, position, CharClass::Whitespace) + 1, '/'),
    ensures
        nodes_from(input, position, queue) == ({
            let start = scan(input, position, CharClass::Whitespace);
            let name_start = scan(input, start + 2, CharClass::Whitespace);
            let name_end = scan(input, name_start, CharClass::TagName);
            let close = scan(input, name_end, CharClass::Except('>'));
            Parsed {
                nodes: Seq::empty(),
                position: step(input, close),
                queue: queue.push(input.subrange(name_start, name_end)),
            }
        }),
{
    reveal(nodes_from);
}

/// The nodes that follow one node or a few.
pub open spec fn followed(
    items: Seq<NodeTree>,
    input: Seq<char>,
    end: int,
    remaining: Seq<Seq<char>>,
) -> Parsed {
    let rest = nodes_from(input, end, remaining);
    Parsed { nodes: items + rest.nodes, position: rest.position, queue: rest.queue }
}

/// A comment is followed by the nodes after it.
pub proof fn lemma_nodes_comment(input: Seq<char>, position: int, queue: Seq<Seq<char>>)
    requires
        0 <= position < input.len(),
        at(input, scan(input, position, CharClass::Whitespace), '<'),
        at(input, scan(input, position, CharClass::Whitespace) + 1, '!'),
    ensures
        nodes_from(input, position, queue) == ({
            let start = scan(input, position, CharClass::Whitespace);
            let (content, end) = comment_from(input, start + 2);
            followed(seq![leaf(NodeKind::Comment(content))], input, end, queue)
        }),
{
    reveal(nodes_from);
    let start = scan(input, position, CharClass::Whitespace);
    lemma_scan_bounds(input, position, CharClass::Whitespace);
    lemma_comment_bounds(input, start + 2);
}

/// Text is followed by the nodes after it.
pub proof fn lemma_nodes_text(input: Seq<char>, position: int, queue: Seq<Seq<char>>)
    requires
        0 <= position < input.len(),
        !at(input, scan(input, position, CharClass::Whitespace), '<'),
    ensures
        nodes_from(input, position, queue) == ({
            let start = scan(input, position, CharClass::Whitespace);
            let (text, end) = text_from(input, start);
            followed(seq![leaf(NodeKind::Text(text))], input, end, queue)
        }),
        position < text_from(input, scan(input, position, CharClass::Whitespace)).1,
{
    reveal(nodes_from);
    let start = scan(input, position, CharClass::Whitespace);
    lemma_scan_bounds(input, position, CharClass::Whitespace);
    lemma_text_bounds(input, start);
    if start == position {
        assert(input[position] != '<');
    }
}

/// An element is followed by the nodes after it.
pub proof fn lemma_nodes_element(input: Seq<char>, position: int, queue: Seq<Seq<char>>)
    requires
        0 <= position < input.len(),
        at(input, scan(input, position, CharClass::Whitespace), '<'),
        !at(input, scan(input, position, CharClass::Whitespace) + 1, '/'),
        !at(input, scan(input, position, CharClass::Whitespace) + 1, '!'),
    ensures
        nodes_from(input, position, queue) == ({
            let start = scan(input, position, CharClass::Whitespace);
            let name_end = scan(input, start + 1, CharClass::TagName);
            let (attributes, after_tag) = attributes_from(input, name_end);
            let inner = nodes_from(input, after_tag, queue);
            let (items, remaining) = paired(
                input.subrange(start + 1, name_end),
                attributes,
                inner.nodes,
                inner.queue,
            );
            followed(items, input, inner.position, remaining)
        }),
{
    reveal(nodes_from);
    let start = scan(input, position, CharClass::Whitespace);
    lemma_scan_bounds(input, position, CharClass::Whitespace);
    let name_end = scan(input, start + 1, CharClass::TagName);
    lemma_scan_bounds(input, start + 1, CharClass::TagName);
    lemma_attributes_bounds(input, name_end, Map::empty());
    let after_tag = attributes_from(input, name_end).1;
    lemma_nodes_bounds(input, after_tag, queue);
}

/// Nodes that were read, then some more, then the rest: it does not matter
/// where the line between them is drawn.
pub proof fn lemma_followed_after(
    read: Seq<NodeTree>,
    items: Seq<NodeTree>,
    input: Seq<char>,
    end: int,
    remaining: Seq<Seq<char>>,
)
    ensures
        followed(read + items, input, end, remaining).nodes == read + followed(
            items,
            input,
            end,
            remaining,
        ).nodes,
        followed(read + items, input, end, remaining).position == followed(
            items,
            input,
            end,
            remaining,
        ).position,
        followed(read + items, input, end, remaining).queue == followed(
            items,
            input,
            end,
            remaining,
        ).queue,
{
    let rest = nodes_from(input, end, remaining);
    assert((read + items) + rest.nodes =~= read + (items + rest.nodes));
}

} // verus!
