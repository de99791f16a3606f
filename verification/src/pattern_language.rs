//! What the token patterns mean: a small syntax tree of regular
//! expressions, the text that each tree is written as, and the strings each
//! one takes in. The laws below tie the patterns of the lexers to trees of
//! this kind and state which texts those trees take in.
use crate::lexer::TokenKind;
use vstd::prelude::*;

verus! {

/// A regular expression, built from the parts that the token patterns use.
pub enum Re {
    /// `^`: the start of the text, taking in nothing.
    Start,
    /// `\d`: a decimal digit.
    Digit,
    /// `\s`: a white space character.
    Space,
    /// A backslash and the character it stands for.
    Escaped(char),
    /// A character standing for itself.
    Char(char),
    /// `[...]`: one of the characters listed.
    OneOf(Seq<char>),
    /// `(...)`
    Group(Box<Re>),
    /// One expression followed by another.
    Cat(Box<Re>, Box<Re>),
    /// `|`: either expression.
    Alt(Box<Re>, Box<Re>),
    /// `*`: any number of times.
    Star(Box<Re>),
    /// `+`: at least once.
    Plus(Box<Re>),
    /// `?`: at most once.
    Opt(Box<Re>),
    /// `\w`: a word character.
    Word,
    /// `.`: any character but a line feed.
    Any,
    /// `$`: the end of the text, taking in nothing.
    End,
    /// `\n`: a line feed.
    Newline,
    /// `[...]`, or `[^...]` when negated: a character that the items take
    /// in, or, negated, one they do not.
    Class(Seq<ClassItem>, bool),
}

/// An item of a character class.
pub enum ClassItem {
    /// A character standing for itself.
    Lit(char),
    /// A backslash and the character it stands for.
    Esc(char),
    /// `a-b`: the characters from `a` to `b`.
    Range(char, char),
    /// `\w`
    Word,
    /// `\s`
    Space,
}

/// The text a class item is written as.
pub open spec fn render_item(i: ClassItem) -> Seq<char> {
    match i {
        ClassItem::Lit(c) => seq![c],
        ClassItem::Esc(c) => seq!['\\', c],
        ClassItem::Range(a, b) => seq![a, '-', b],
        ClassItem::Word => seq!['\\', 'w'],
        ClassItem::Space => seq!['\\', 's'],
    }
}

/// The text the items of a class are written as, one after another.
pub open spec fn render_items(items: Seq<ClassItem>) -> Seq<char>
    decreases items.len(),
{
    if items.len() == 0 {
        Seq::empty()
    } else {
        render_item(items[0]) + render_items(items.drop_first())
    }
}

/// An ASCII word character: a letter, a digit or `_` (the `\w` class takes
/// these in, among others).
pub open spec fn is_word(c: char) -> bool {
    ||| 'a' <= c && c <= 'z'
    ||| 'A' <= c && c <= 'Z'
    ||| is_digit(c)
    ||| c == '_'
}

/// Whether the class item `i` takes in `c`.
pub open spec fn item_has(i: ClassItem, c: char) -> bool {
    match i {
        ClassItem::Lit(x) => c == x,
        ClassItem::Esc(x) => c == x,
        ClassItem::Range(a, b) => a <= c && c <= b,
        ClassItem::Word => is_word(c),
        ClassItem::Space => is_space(c),
    }
}

/// Whether one of `items` takes in `c`.
pub open spec fn items_have(items: Seq<ClassItem>, c: char) -> bool
    decreases items.len(),
{
    items.len() > 0 && (item_has(items[0], c) || items_have(items.drop_first(), c))
}

/// The text a regular expression is written as.
pub open spec fn render(r: Re) -> Seq<char>
    decreases r,
{
    match r {
        Re::Start => seq!['^'],
        Re::Digit => seq!['\\', 'd'],
        Re::Space => seq!['\\', 's'],
        Re::Escaped(c) => seq!['\\', c],
        Re::Char(c) => seq![c],
        Re::OneOf(cs) => seq!['['] + cs + seq![']'],
        Re::Group(x) => seq!['('] + render(*x) + seq![')'],
        Re::Cat(a, b) => render(*a) + render(*b),
        Re::Alt(a, b) => render(*a) + seq!['|'] + render(*b),
        Re::Star(x) => render(*x) + seq!['*'],
        Re::Plus(x) => render(*x) + seq!['+'],
        Re::Opt(x) => render(*x) + seq!['?'],
        Re::Word => seq!['\\', 'w'],
        Re::Any => seq!['.'],
        Re::End => seq!['$'],
        Re::Newline => seq!['\\', 'n'],
        Re::Class(items, negated) => seq!['['] + (if negated {
            seq!['^']
        } else {
            Seq::empty()
        }) + render_items(items) + seq![']'],
    }
}

/// An ASCII decimal digit (the `\d` class takes these in, among others).
pub open spec fn is_digit(c: char) -> bool {
    '0' <= c && c <= '9'
}

/// A white space character: the `White_Space` characters of Unicode, which
/// the `\s` class stands for.
pub open spec fn is_space(c: char) -> bool {
    let n = c as u32;
    ||| n == 0x20
    ||| 0x09 <= n && n <= 0x0d
    ||| n == 0x85
    ||| n == 0xa0
    ||| n == 0x1680
    ||| 0x2000 <= n && n <= 0x200a
    ||| n == 0x2028
    ||| n == 0x2029
    ||| n == 0x202f
    ||| n == 0x205f
    ||| n == 0x3000
}

/// All characters of `s` are ASCII decimal digits.
pub open spec fn all_digits(s: Seq<char>) -> bool {
    forall|i: int| 0 <= i < s.len() ==> is_digit(#[trigger] s[i])
}

/// `r` takes in the whole of `s` (at the start of a text, where `^` holds,
/// and at its end, where `$` holds). The classes `\d` and `\w` are read by
/// their ASCII members, so what is said here of them, and of classes that
/// leave them out, is meant of ASCII characters.
pub open spec fn takes_in(r: Re, s: Seq<char>) -> bool
    decreases r, s.len(),
{
    match r {
        Re::Start => s.len() == 0,
        Re::Digit => s.len() == 1 && is_digit(s[0]),
        Re::Space => s.len() == 1 && is_space(s[0]),
        Re::Escaped(c) => s == seq![c],
        Re::Char(c) => s == seq![c],
        Re::OneOf(cs) => s.len() == 1 && cs.contains(s[0]),
        Re::Group(x) => takes_in(*x, s),
        Re::Cat(a, b) => exists|k: int|
            #![trigger s.take(k)]
            0 <= k <= s.len() && takes_in(*a, s.take(k)) && takes_in(*b, s.skip(k)),
        Re::Alt(a, b) => takes_in(*a, s) || takes_in(*b, s),
        Re::Star(x) => s.len() == 0 || exists|k: int|
            #![trigger s.take(k)]
            1 <= k <= s.len() && takes_in(*x, s.take(k)) && takes_in(Re::Star(x), s.skip(k)),
        Re::Plus(x) => exists|k: int|
            #![trigger s.take(k)]
            1 <= k <= s.len() && takes_in(*x, s.take(k)) && (k == s.len() || takes_in(
                Re::Plus(x),
                s.skip(k),
            )),
        Re::Opt(x) => s.len() == 0 || takes_in(*x, s),
        Re::Word => s.len() == 1 && is_word(s[0]),
        Re::Any => s.len() == 1 && s[0] != '\n',
        Re::End => s.len() == 0,
        Re::Newline => s == seq!['\n'],
        Re::Class(items, negated) => s.len() == 1 && (items_have(items, s[0]) != negated),
    }
}

/// `^\s+`
pub open spec fn whitespace_re() -> Re {
    Re::Cat(Box::new(Re::Start), Box::new(Re::Plus(Box::new(Re::Space))))
}

/// `^\d*\.\d+|^(0[xbo])?\d+`
pub open spec fn literal_re() -> Re {
    Re::Alt(
        Box::new(
            Re::Cat(
                Box::new(Re::Start),
                Box::new(
                    Re::Cat(
                        Box::new(Re::Star(Box::new(Re::Digit))),
                        Box::new(Re::Cat(Box::new(Re::Escaped('.')), Box::new(Re::Plus(Box::new(Re::Digit))))),
                    ),
                ),
            ),
        ),
        Box::new(
            Re::Cat(
                Box::new(Re::Start),
                Box::new(
                    Re::Cat(
                        Box::new(
                            Re::Opt(
                                Box::new(
                                    Re::Group(
                                        Box::new(
                                            Re::Cat(Box::new(Re::Char('0')), Box::new(Re::OneOf(seq!['x', 'b', 'o']))),
                                        ),
                                    ),
                                ),
                            ),
                        ),
                        Box::new(Re::Plus(Box::new(Re::Digit))),
                    ),
                ),
            ),
        ),
    )
}

/// `a` followed by `b` takes in `s` when `a` takes in its first `k`
/// characters and `b` the rest.
proof fn lemma_cat(a: Re, b: Re, s: Seq<char>, k: int)
    requires
        0 <= k <= s.len(),
        takes_in(a, s.take(k)),
        takes_in(b, s.skip(k)),
    ensures
        takes_in(Re::Cat(Box::new(a), Box::new(b)), s),
{
    // Naming the split lets it serve as the witness.
    assert(s.take(k) == s.take(k));
}

/// `x+` takes in `s` when `x` takes in its first `k` characters and, unless
/// that is all of it, `x+` the rest.
proof fn lemma_plus_step(x: Re, s: Seq<char>, k: int)
    requires
        1 <= k <= s.len(),
        takes_in(x, s.take(k)),
        k == s.len() || takes_in(Re::Plus(Box::new(x)), s.skip(k)),
    ensures
        takes_in(Re::Plus(Box::new(x)), s),
{
    // Naming the split lets it serve as the witness.
    assert(s.take(k) == s.take(k));
}

/// `x*` takes in `s` when `x` takes in its first `k` characters and `x*`
/// the rest.
proof fn lemma_star_step(x: Re, s: Seq<char>, k: int)
    requires
        1 <= k <= s.len(),
        takes_in(x, s.take(k)),
        takes_in(Re::Star(Box::new(x)), s.skip(k)),
    ensures
        takes_in(Re::Star(Box::new(x)), s),
{
    // Naming the split lets it serve as the witness.
    assert(s.take(k) == s.take(k));
}

/// `c` as a one-character expression.
pub open spec fn ch(c: char) -> Re {
    Re::Char(c)
}

/// `a` followed by `b`.
pub open spec fn cat(a: Re, b: Re) -> Re {
    Re::Cat(Box::new(a), Box::new(b))
}

/// The brackets, braces, `;` and `,`, as class items.
pub open spec fn separator_items() -> Seq<ClassItem> {
    seq![
        ClassItem::Esc('['),
        ClassItem::Esc(']'),
        ClassItem::Esc('('),
        ClassItem::Esc(')'),
        ClassItem::Lit('{'),
        ClassItem::Lit('}'),
        ClassItem::Lit(';'),
        ClassItem::Lit(','),
    ]
}

/// `^//.*(\n|$)|^/\*.*\*/`
pub open spec fn comment_re() -> Re {
    Re::Alt(
        Box::new(
            cat(
                Re::Start,
                cat(
                    ch('/'),
                    cat(
                        ch('/'),
                        cat(
                            Re::Star(Box::new(Re::Any)),
                            Re::Group(Box::new(Re::Alt(Box::new(Re::Newline), Box::new(Re::End)))),
                        ),
                    ),
                ),
            ),
        ),
        Box::new(
            cat(
                Re::Start,
                cat(
                    ch('/'),
                    cat(Re::Escaped('*'), cat(Re::Star(Box::new(Re::Any)), cat(Re::Escaped('*'), ch('/')))),
                ),
            ),
        ),
    )
}

/// `^[A-Za-z]\w*|^`[^`]+``
pub open spec fn identifier_re() -> Re {
    Re::Alt(
        Box::new(
            cat(
                Re::Start,
                cat(
                    Re::Class(seq![ClassItem::Range('A', 'Z'), ClassItem::Range('a', 'z')], false),
                    Re::Star(Box::new(Re::Word)),
                ),
            ),
        ),
        Box::new(
            cat(
                Re::Start,
                cat(ch('`'), cat(Re::Plus(Box::new(Re::Class(seq![ClassItem::Lit('`')], true))), ch('`'))),
            ),
        ),
    )
}

/// `^[\[\]\(\){};,]`
pub open spec fn separator_re() -> Re {
    cat(Re::Start, Re::Class(separator_items(), false))
}

/// `^[^\w\s\[\]\(\){};,]+`
pub open spec fn operator_re() -> Re {
    cat(
        Re::Start,
        Re::Plus(Box::new(Re::Class(seq![ClassItem::Word, ClassItem::Space] + separator_items(), true))),
    )
}

/// `^` followed by `r` takes in what `r` takes in.
proof fn lemma_start_then(r: Re, s: Seq<char>)
    requires
        takes_in(r, s),
    ensures
        takes_in(Re::Cat(Box::new(Re::Start), Box::new(r)), s),
{
    assert(s.take(0) =~= Seq::<char>::empty());
    assert(s.skip(0) =~= s);
    assert(takes_in(Re::Start, s.take(0)));
    lemma_cat(Re::Start, r, s, 0);
}

/// A non-empty run of characters of a one-character class is taken in by
/// that class with `+`.
proof fn lemma_plus_run(x: Re, s: Seq<char>)
    requires
        s.len() > 0,
        forall|i: int| 0 <= i < s.len() ==> #[trigger] takes_in(x, seq![s[i]]),
    ensures
        takes_in(Re::Plus(Box::new(x)), s),
    decreases s.len(),
{
    assert(s.take(1) =~= seq![s[0]]);
    if s.len() > 1 {
        let rest = s.skip(1);
        assert forall|i: int| 0 <= i < rest.len() implies #[trigger] takes_in(x, seq![rest[i]]) by {
            assert(rest[i] == s[i + 1]);
        }
        lemma_plus_run(x, rest);
    }
    assert(takes_in(x, s.take(1)));
    lemma_plus_step(x, s, 1);
}

/// A run of characters of a one-character class, empty or not, is taken in
/// by that class with `*`.
proof fn lemma_star_run(x: Re, s: Seq<char>)
    requires
        forall|i: int| 0 <= i < s.len() ==> #[trigger] takes_in(x, seq![s[i]]),
    ensures
        takes_in(Re::Star(Box::new(x)), s),
    decreases s.len(),
{
    if s.len() > 0 {
        assert(s.take(1) =~= seq![s[0]]);
        let rest = s.skip(1);
        assert forall|i: int| 0 <= i < rest.len() implies #[trigger] takes_in(x, seq![rest[i]]) by {
            assert(rest[i] == s[i + 1]);
        }
        lemma_star_run(x, rest);
        assert(takes_in(x, s.take(1)));
        lemma_star_step(x, s, 1);
    }
}

/// The whitespace pattern `^\s+` is written as [`whitespace_re`], which
/// takes in exactly the non-empty runs of white space characters; among
/// these are the space, the tab, the line feed and the carriage return.
pub proof fn lemma_whitespace_language(s: Seq<char>)
    ensures
        render(whitespace_re()) == "^\\s+"@,
        s.len() > 0 && (forall|i: int| 0 <= i < s.len() ==> is_space(#[trigger] s[i])) ==> takes_in(whitespace_re(), s),
        is_space(' ') && is_space('\t') && is_space('\n') && is_space('\r'),
{
    reveal_strlit("^\\s+");
    reveal_with_fuel(render, 4);
    assert(render(whitespace_re()) =~= "^\\s+"@);
    if s.len() > 0 && forall|i: int| 0 <= i < s.len() ==> is_space(#[trigger] s[i]) {
        assert forall|i: int| 0 <= i < s.len() implies #[trigger] takes_in(Re::Space, seq![s[i]]) by {}
        lemma_plus_run(Re::Space, s);
        lemma_start_then(Re::Plus(Box::new(Re::Space)), s);
    }
}

/// The literal pattern `^\d*\.\d+|^(0[xbo])?\d+` is written as
/// [`literal_re`], which takes in every decimal (any digits, a point, and at
/// least one digit), every integer (at least one digit), and every integer
/// written after `0x`, `0b` or `0o`.
pub proof fn lemma_literal_language(a: Seq<char>, b: Seq<char>, p: char)
    ensures
        render(literal_re()) == "^\\d*\\.\\d+|^(0[xbo])?\\d+"@,
        all_digits(a) && all_digits(b) && b.len() > 0 ==> takes_in(literal_re(), a + seq!['.'] + b),
        all_digits(b) && b.len() > 0 ==> takes_in(literal_re(), b),
        all_digits(b) && b.len() > 0 && (p == 'x' || p == 'b' || p == 'o') ==> takes_in(
            literal_re(),
            seq!['0', p] + b,
        ),
{
    reveal_strlit("^\\d*\\.\\d+|^(0[xbo])?\\d+");
    reveal_with_fuel(render, 8);
    assert(render(literal_re()) =~= "^\\d*\\.\\d+|^(0[xbo])?\\d+"@);
    let digits = Re::Digit;
    let plus = Re::Plus(Box::new(Re::Digit));
    if all_digits(b) && b.len() > 0 {
        assert forall|i: int| 0 <= i < b.len() implies #[trigger] takes_in(digits, seq![b[i]]) by {}
        lemma_plus_run(digits, b);
        if all_digits(a) {
            assert forall|i: int| 0 <= i < a.len() implies #[trigger] takes_in(digits, seq![a[i]]) by {}
            lemma_star_run(digits, a);
            let s = a + seq!['.'] + b;
            let tail = Re::Cat(Box::new(Re::Escaped('.')), Box::new(plus));
            let pt = seq!['.'] + b;
            assert(pt.take(1) =~= seq!['.']);
            assert(pt.skip(1) =~= b);
            assert(takes_in(Re::Escaped('.'), pt.take(1)));
            lemma_cat(Re::Escaped('.'), plus, pt, 1);
            assert(s.take(a.len() as int) =~= a);
            assert(s.skip(a.len() as int) =~= pt);
            let body = Re::Cat(Box::new(Re::Star(Box::new(Re::Digit))), Box::new(tail));
            lemma_cat(Re::Star(Box::new(Re::Digit)), tail, s, a.len() as int);
            lemma_start_then(body, s);
        }
        let opt = Re::Opt(
            Box::new(Re::Group(Box::new(Re::Cat(Box::new(Re::Char('0')), Box::new(Re::OneOf(seq!['x', 'b', 'o'])))))),
        );
        let int_body = Re::Cat(Box::new(opt), Box::new(plus));
        assert(b.take(0) =~= Seq::<char>::empty());
        assert(b.skip(0) =~= b);
        assert(takes_in(opt, b.take(0)));
        lemma_cat(opt, plus, b, 0);
        lemma_start_then(int_body, b);
        if p == 'x' || p == 'b' || p == 'o' {
            let s = seq!['0', p] + b;
            let pre = seq!['0', p];
            assert(pre.take(1) =~= seq!['0']);
            assert(pre.skip(1) =~= seq![p]);
            assert(seq!['x', 'b', 'o'].contains(p)) by {
                if p == 'x' {
                    assert(seq!['x', 'b', 'o'][0] == p);
                } else if p == 'b' {
                    assert(seq!['x', 'b', 'o'][1] == p);
                } else {
                    assert(seq!['x', 'b', 'o'][2] == p);
                }
            }
            assert(takes_in(Re::Char('0'), pre.take(1)));
            assert(takes_in(Re::OneOf(seq!['x', 'b', 'o']), pre.skip(1)));
            lemma_cat(Re::Char('0'), Re::OneOf(seq!['x', 'b', 'o']), pre, 1);
            assert(s.take(2) =~= pre);
            assert(s.skip(2) =~= b);
            assert(takes_in(
                Re::Group(Box::new(Re::Cat(Box::new(Re::Char('0')), Box::new(Re::OneOf(seq!['x', 'b', 'o']))))),
                s.take(2),
            ));
            assert(takes_in(opt, s.take(2)));
            lemma_cat(opt, plus, s, 2);
            lemma_start_then(int_body, s);
        }
    }
}

/// The items of the separator class are written as the brackets, each
/// after a backslash, then the braces, `;` and `,`.
proof fn lemma_render_separator_items()
    ensures
        render_items(separator_items()) == seq!['\\', '[', '\\', ']', '\\', '(', '\\', ')', '{', '}', ';', ','],
{
    reveal_with_fuel(render_items, 9);
    assert(render_items(separator_items()) =~= seq!['\\', '[', '\\', ']', '\\', '(', '\\', ')', '{', '}', ';', ',']);
}

/// The comment pattern is written as [`comment_re`].
pub proof fn lemma_render_comment()
    ensures
        render(comment_re()) == "^//.*(\\n|$)|^/\\*.*\\*/"@,
{
    reveal_strlit("^//.*(\\n|$)|^/\\*.*\\*/");
    let first = cat(
        ch('/'),
        cat(
            ch('/'),
            cat(Re::Star(Box::new(Re::Any)), Re::Group(Box::new(Re::Alt(Box::new(Re::Newline), Box::new(Re::End))))),
        ),
    );
    let second = cat(ch('/'), cat(Re::Escaped('*'), cat(Re::Star(Box::new(Re::Any)), cat(Re::Escaped('*'), ch('/')))));
    reveal_with_fuel(render, 6);
    assert(render(first) =~= seq!['/', '/', '.', '*', '(', '\\', 'n', '|', '$', ')']);
    assert(render(second) =~= seq!['/', '\\', '*', '.', '*', '\\', '*', '/']);
    assert(render(comment_re()) =~= "^//.*(\\n|$)|^/\\*.*\\*/"@);
}

/// The identifier pattern is written as [`identifier_re`].
pub proof fn lemma_render_identifier()
    ensures
        render(identifier_re()) == "^[A-Za-z]\\w*|^`[^`]+`"@,
{
    reveal_strlit("^[A-Za-z]\\w*|^`[^`]+`");
    reveal_with_fuel(render_items, 3);
    reveal_with_fuel(render, 6);
    let letters = Re::Class(seq![ClassItem::Range('A', 'Z'), ClassItem::Range('a', 'z')], false);
    assert(render_items(seq![ClassItem::Range('A', 'Z'), ClassItem::Range('a', 'z')]) =~= seq!['A', '-', 'Z', 'a', '-', 'z']);
    assert(render(letters) =~= seq!['[', 'A', '-', 'Z', 'a', '-', 'z', ']']);
    let not_tick = Re::Class(seq![ClassItem::Lit('`')], true);
    assert(render_items(seq![ClassItem::Lit('`')]) =~= seq!['`']);
    assert(render(not_tick) =~= seq!['[', '^', '`', ']']);
    assert(render(identifier_re()) =~= "^[A-Za-z]\\w*|^`[^`]+`"@);
}

/// The separator pattern is written as [`separator_re`].
pub proof fn lemma_render_separator()
    ensures
        render(separator_re()) == "^[\\[\\]\\(\\){};,]"@,
{
    reveal_strlit("^[\\[\\]\\(\\){};,]");
    lemma_render_separator_items();
    reveal_with_fuel(render, 3);
    assert(render(separator_re()) =~= "^[\\[\\]\\(\\){};,]"@);
}

/// The operator pattern is written as [`operator_re`].
pub proof fn lemma_render_operator()
    ensures
        render(operator_re()) == "^[^\\w\\s\\[\\]\\(\\){};,]+"@,
{
    reveal_strlit("^[^\\w\\s\\[\\]\\(\\){};,]+");
    lemma_render_separator_items();
    let items = seq![ClassItem::Word, ClassItem::Space] + separator_items();
    assert(items.drop_first().drop_first() =~= separator_items());
    reveal_with_fuel(render_items, 3);
    assert(render_items(items) =~= seq!['\\', 'w', '\\', 's'] + render_items(separator_items()));
    reveal_with_fuel(render, 4);
    assert(render(operator_re()) =~= "^[^\\w\\s\\[\\]\\(\\){};,]+"@);
}
/// An ASCII letter.
pub open spec fn is_letter(c: char) -> bool {
    'a' <= c && c <= 'z' || 'A' <= c && c <= 'Z'
}

/// An ASCII character that is neither a word character, white space, a
/// bracket, a brace, `;` nor `,`: one that operators are made of.
pub open spec fn is_operator_char(c: char) -> bool {
    ||| c == '!' || c == '"' || c == '#' || c == '$' || c == '%' || c == '&' || c == '\''
    ||| c == '*' || c == '+' || c == '-' || c == '.' || c == '/' || c == ':' || c == '<'
    ||| c == '=' || c == '>' || c == '?' || c == '@' || c == '\\' || c == '^' || c == '`'
    ||| c == '|' || c == '~'
}

/// `a` followed by `b` takes in what `a` takes in followed by what `b`
/// takes in.
proof fn lemma_cat_concat(a: Re, b: Re, x: Seq<char>, y: Seq<char>)
    requires
        takes_in(a, x),
        takes_in(b, y),
    ensures
        takes_in(cat(a, b), x + y),
{
    assert((x + y).take(x.len() as int) =~= x);
    assert((x + y).skip(x.len() as int) =~= y);
    lemma_cat(a, b, x + y, x.len() as int);
}

/// The separator expression takes in each bracket, brace, `;` and `,`.
pub proof fn lemma_separator_language(c: char)
    ensures
        c == '[' || c == ']' || c == '(' || c == ')' || c == '{' || c == '}' || c == ';' || c == ',' ==> takes_in(
            separator_re(),
            seq![c],
        ),
{
    reveal_with_fuel(items_have, 9);
    if c == '[' || c == ']' || c == '(' || c == ')' || c == '{' || c == '}' || c == ';' || c == ',' {
        assert(items_have(separator_items(), c));
        assert(takes_in(Re::Class(separator_items(), false), seq![c]));
        lemma_start_then(Re::Class(separator_items(), false), seq![c]);
    }
}

/// The operator expression takes in every non-empty run of operator
/// characters.
pub proof fn lemma_operator_language(s: Seq<char>)
    ensures
        s.len() > 0 && (forall|i: int| 0 <= i < s.len() ==> is_operator_char(#[trigger] s[i])) ==> takes_in(
            operator_re(),
            s,
        ),
{
    let items = seq![ClassItem::Word, ClassItem::Space] + separator_items();
    let class = Re::Class(items, true);
    if s.len() > 0 && (forall|i: int| 0 <= i < s.len() ==> is_operator_char(#[trigger] s[i])) {
        assert forall|i: int| 0 <= i < s.len() implies #[trigger] takes_in(class, seq![s[i]]) by {
            reveal_with_fuel(items_have, 11);
            let c = s[i];
            assert(is_operator_char(c));
            assert(!items_have(items, c));
        }
        lemma_plus_run(class, s);
        lemma_start_then(Re::Plus(Box::new(class)), s);
    }
}

/// The identifier expression takes in a letter followed by any word
/// characters, and any characters but a backtick between two backticks.
pub proof fn lemma_identifier_language(a: char, w: Seq<char>, q: Seq<char>)
    ensures
        is_letter(a) && (forall|i: int| 0 <= i < w.len() ==> is_word(#[trigger] w[i])) ==> takes_in(
            identifier_re(),
            seq![a] + w,
        ),
        q.len() > 0 && (forall|i: int| 0 <= i < q.len() ==> #[trigger] q[i] != '`') ==> takes_in(
            identifier_re(),
            seq!['`'] + q + seq!['`'],
        ),
{
    reveal_with_fuel(items_have, 3);
    let letters = Re::Class(seq![ClassItem::Range('A', 'Z'), ClassItem::Range('a', 'z')], false);
    if is_letter(a) && (forall|i: int| 0 <= i < w.len() ==> is_word(#[trigger] w[i])) {
        assert(takes_in(letters, seq![a]));
        assert forall|i: int| 0 <= i < w.len() implies #[trigger] takes_in(Re::Word, seq![w[i]]) by {}
        lemma_star_run(Re::Word, w);
        lemma_cat_concat(letters, Re::Star(Box::new(Re::Word)), seq![a], w);
        lemma_start_then(cat(letters, Re::Star(Box::new(Re::Word))), seq![a] + w);
    }
    if q.len() > 0 && (forall|i: int| 0 <= i < q.len() ==> #[trigger] q[i] != '`') {
        let not_tick = Re::Class(seq![ClassItem::Lit('`')], true);
        assert forall|i: int| 0 <= i < q.len() implies #[trigger] takes_in(not_tick, seq![q[i]]) by {
            assert(q[i] != '`');
        }
        lemma_plus_run(not_tick, q);
        let inner = Re::Plus(Box::new(not_tick));
        assert(takes_in(ch('`'), seq!['`']));
        lemma_cat_concat(inner, ch('`'), q, seq!['`']);
        lemma_cat_concat(ch('`'), cat(inner, ch('`')), seq!['`'], q + seq!['`']);
        assert(seq!['`'] + (q + seq!['`']) =~= seq!['`'] + q + seq!['`']);
        lemma_start_then(cat(ch('`'), cat(inner, ch('`'))), seq!['`'] + q + seq!['`']);
    }
}

/// The comment expression takes in `//` followed by a line's characters,
/// with or without the line feed that ends it, and `/*` followed by a line's
/// characters and `*/`.
pub proof fn lemma_comment_language(b: Seq<char>)
    ensures
        (forall|i: int| 0 <= i < b.len() ==> #[trigger] b[i] != '\n') ==> {
            &&& takes_in(comment_re(), seq!['/', '/'] + b)
            &&& takes_in(comment_re(), seq!['/', '/'] + b + seq!['\n'])
            &&& takes_in(comment_re(), seq!['/', '*'] + b + seq!['*', '/'])
        },
{
    if forall|i: int| 0 <= i < b.len() ==> #[trigger] b[i] != '\n' {
        let any = Re::Star(Box::new(Re::Any));
        assert forall|i: int| 0 <= i < b.len() implies #[trigger] takes_in(Re::Any, seq![b[i]]) by {}
        lemma_star_run(Re::Any, b);
        assert(takes_in(ch('/'), seq!['/']));
        let close = Re::Group(Box::new(Re::Alt(Box::new(Re::Newline), Box::new(Re::End))));
        let either = Re::Alt(Box::new(Re::Newline), Box::new(Re::End));
        assert(takes_in(Re::Newline, seq!['\n']));
        assert(takes_in(either, seq!['\n']));
        assert(takes_in(close, seq!['\n']));
        assert(takes_in(Re::End, Seq::<char>::empty()));
        assert(takes_in(either, Seq::<char>::empty()));
        assert(takes_in(close, Seq::<char>::empty()));
        let line = cat(ch('/'), cat(ch('/'), cat(any, close)));
        // `//` and the line, without a line feed
        lemma_cat_concat(any, close, b, Seq::empty());
        assert(b + Seq::<char>::empty() =~= b);
        lemma_cat_concat(ch('/'), cat(any, close), seq!['/'], b);
        lemma_cat_concat(ch('/'), cat(ch('/'), cat(any, close)), seq!['/'], seq!['/'] + b);
        assert(seq!['/'] + (seq!['/'] + b) =~= seq!['/', '/'] + b);
        lemma_start_then(line, seq!['/', '/'] + b);
        // `//`, the line and its line feed
        lemma_cat_concat(any, close, b, seq!['\n']);
        lemma_cat_concat(ch('/'), cat(any, close), seq!['/'], b + seq!['\n']);
        lemma_cat_concat(ch('/'), cat(ch('/'), cat(any, close)), seq!['/'], seq!['/'] + (b + seq!['\n']));
        assert(seq!['/'] + (seq!['/'] + (b + seq!['\n'])) =~= seq!['/', '/'] + b + seq!['\n']);
        lemma_start_then(line, seq!['/', '/'] + b + seq!['\n']);
        // `/*`, the line and `*/`
        let star = Re::Escaped('*');
        assert(takes_in(star, seq!['*']));
        lemma_cat_concat(star, ch('/'), seq!['*'], seq!['/']);
        assert(seq!['*'] + seq!['/'] =~= seq!['*', '/']);
        lemma_cat_concat(any, cat(star, ch('/')), b, seq!['*', '/']);
        lemma_cat_concat(star, cat(any, cat(star, ch('/'))), seq!['*'], b + seq!['*', '/']);
        lemma_cat_concat(ch('/'), cat(star, cat(any, cat(star, ch('/')))), seq!['/'], seq!['*'] + (b + seq!['*', '/']));
        assert(seq!['/'] + (seq!['*'] + (b + seq!['*', '/'])) =~= seq!['/', '*'] + b + seq!['*', '/']);
        lemma_start_then(cat(ch('/'), cat(star, cat(any, cat(star, ch('/'))))), seq!['/', '*'] + b + seq!['*', '/']);
    }
}

} // verus!
