//! How a text is cut before its bytes are mapped: the grammar of each family's
//! splitting expression, what it matches, and where the pieces end.
use vstd::prelude::*;
use vstd::string::*;

use crate::gguf::tokenizer::family_regex;

verus! {

// ---------- the expressions ----------

/// A kind of character that an expression names.
pub enum Class {
    Letter,
    Mark,
    Number,
    Space,
    Return,
    Newline,
}

/// The characters that one place of an expression takes.
pub enum Charset {
    Blank,
    Of(Class),
    In(Seq<Class>),
    NotIn(Seq<Class>),
}

/// How often.
pub enum Times {
    One,
    Maybe,
    UpToThree,
    Many,
    Any,
}

/// One part of an alternative.
pub enum Part {
    Run(Charset, Times),
    /// Nothing but white space may follow.
    NotBeforeText,
}

/// One alternative: an apostrophe and an ending, in either case where `fold`
/// says so; or parts in turn.
pub enum Alt {
    Endings { fold: bool, words: Seq<Seq<char>> },
    Parts(Seq<Part>),
}

pub open spec fn class_text(c: Class) -> Seq<char> {
    match c {
        Class::Letter => r"\p{L}"@,
        Class::Mark => r"\p{M}"@,
        Class::Number => r"\p{N}"@,
        Class::Space => r"\s"@,
        Class::Return => r"\r"@,
        Class::Newline => r"\n"@,
    }
}

pub open spec fn classes_text(v: Seq<Class>, j: nat) -> Seq<char>
    decreases v.len() - j,
{
    if j >= v.len() {
        Seq::empty()
    } else {
        class_text(v[j as int]) + classes_text(v, j + 1)
    }
}

pub open spec fn charset_text(s: Charset) -> Seq<char> {
    match s {
        Charset::Blank => seq![' '],
        Charset::Of(c) => class_text(c),
        Charset::In(v) => seq!['['] + classes_text(v, 0) + seq![']'],
        Charset::NotIn(v) => seq!['[', '^'] + classes_text(v, 0) + seq![']'],
    }
}

pub open spec fn times_text(n: Times) -> Seq<char> {
    match n {
        Times::One => Seq::empty(),
        Times::Maybe => seq!['?'],
        Times::UpToThree => seq!['{', '1', ',', '3', '}'],
        Times::Many => seq!['+'],
        Times::Any => seq!['*'],
    }
}

pub open spec fn part_text(p: Part) -> Seq<char> {
    match p {
        Part::Run(s, n) => charset_text(s) + times_text(n),
        Part::NotBeforeText => r"(?!\S)"@,
    }
}

pub open spec fn parts_text(v: Seq<Part>, j: nat) -> Seq<char>
    decreases v.len() - j,
{
    if j >= v.len() {
        Seq::empty()
    } else {
        part_text(v[j as int]) + parts_text(v, j + 1)
    }
}

pub open spec fn endings_text(v: Seq<Seq<char>>, j: nat) -> Seq<char>
    decreases v.len() - j,
{
    if j >= v.len() {
        Seq::empty()
    } else if j + 1 == v.len() {
        seq!['\''] + v[j as int]
    } else {
        seq!['\''] + v[j as int] + seq!['|'] + endings_text(v, j + 1)
    }
}

pub open spec fn alt_text(a: Alt) -> Seq<char> {
    match a {
        Alt::Endings { fold, words } => if fold {
            seq!['(', '?', 'i', ':'] + endings_text(words, 0) + seq![')']
        } else {
            endings_text(words, 0)
        },
        Alt::Parts(v) => parts_text(v, 0),
    }
}

/// The text of an expression: its alternatives, parted by bars.
pub open spec fn pattern_text(v: Seq<Alt>, j: nat) -> Seq<char>
    decreases v.len() - j,
{
    if j >= v.len() {
        Seq::empty()
    } else if j + 1 == v.len() {
        alt_text(v[j as int])
    } else {
        alt_text(v[j as int]) + seq!['|'] + pattern_text(v, j + 1)
    }
}

// ---------- what they match ----------

/// The kinds of the characters, and which characters are a letter in another
/// case.
pub struct Kinds {
    pub letter: spec_fn(char) -> bool,
    pub mark: spec_fn(char) -> bool,
    pub number: spec_fn(char) -> bool,
    pub space: spec_fn(char) -> bool,
    pub folds: spec_fn(char, char) -> bool,
}

/// A character has one kind at most, and is at most one letter in another case;
/// the blank and the line breaks are white space, and an apostrophe has no kind.
pub open spec fn kinds_ok(u: Kinds) -> bool {
    &&& forall|c: char| #[trigger] (u.letter)(c) ==> !(u.mark)(c) && !(u.number)(c) && !(u.space)(c)
    &&& forall|c: char| #[trigger] (u.mark)(c) ==> !(u.number)(c) && !(u.space)(c)
    &&& forall|c: char| #[trigger] (u.number)(c) ==> !(u.space)(c)
    &&& (u.space)(' ') && (u.space)('\r') && (u.space)('\n')
    &&& forall|c: char, x: char, y: char| #[trigger] (u.folds)(c, x) && #[trigger] (u.folds)(c, y) ==> x == y
    &&& forall|c: char| #[trigger] (u.folds)(c, c)
    &&& !(u.letter)('\'') && !(u.mark)('\'') && !(u.number)('\'') && !(u.space)('\'')
}

pub open spec fn of_class(u: Kinds, c: Class, x: char) -> bool {
    match c {
        Class::Letter => (u.letter)(x),
        Class::Mark => (u.mark)(x),
        Class::Number => (u.number)(x),
        Class::Space => (u.space)(x),
        Class::Return => x == '\r',
        Class::Newline => x == '\n',
    }
}

/// The character is of one of the classes from `j` on.
pub open spec fn listed(u: Kinds, v: Seq<Class>, j: nat, x: char) -> bool
    decreases v.len() - j,
{
    j < v.len() && (of_class(u, v[j as int], x) || listed(u, v, j + 1, x))
}

pub open spec fn taken(u: Kinds, s: Charset, x: char) -> bool {
    match s {
        Charset::Blank => x == ' ',
        Charset::Of(c) => of_class(u, c, x),
        Charset::In(v) => listed(u, v, 0, x),
        Charset::NotIn(v) => !listed(u, v, 0, x),
    }
}

/// How many characters from `i` on are taken.
pub open spec fn run(u: Kinds, s: Charset, t: Seq<char>, i: int) -> nat
    decreases t.len() - i,
{
    if 0 <= i < t.len() && taken(u, s, t[i]) {
        1 + run(u, s, t, i + 1)
    } else {
        0
    }
}

pub open spec fn least(n: Times) -> nat {
    match n {
        Times::Maybe | Times::Any => 0,
        _ => 1,
    }
}

pub open spec fn most(n: Times, k: nat) -> nat {
    match n {
        Times::One | Times::Maybe => if k > 1 { 1 } else { k },
        Times::UpToThree => if k > 3 { 3 } else { k },
        Times::Many | Times::Any => k,
    }
}

/// Where the parts from `j` on end, from `i` on: each takes as much as it can, and
/// gives back only what the parts behind it need.
pub open spec fn parts_end(u: Kinds, v: Seq<Part>, j: int, t: Seq<char>, i: int) -> Option<int>
    decreases v.len() - j, 1int, 0int,
{
    if j < 0 || j >= v.len() {
        Some(i)
    } else {
        match v[j] {
            Part::NotBeforeText => if 0 <= i < t.len() && !(u.space)(t[i]) {
                None
            } else {
                parts_end(u, v, j + 1, t, i)
            },
            Part::Run(s, n) => giving_back(u, v, j, n, t, i, most(n, run(u, s, t, i))),
        }
    }
}

/// The same where part `j` takes `k` characters at most.
pub open spec fn giving_back(u: Kinds, v: Seq<Part>, j: int, n: Times, t: Seq<char>, i: int, k: nat) -> Option<int>
    decreases v.len() - j, 0int, k,
{
    if j < 0 || j >= v.len() || k < least(n) {
        None
    } else {
        match parts_end(u, v, j + 1, t, i + k) {
            Some(e) => Some(e),
            None => if k == 0 {
                None
            } else {
                giving_back(u, v, j, n, t, i, (k - 1) as nat)
            },
        }
    }
}

/// The text reads `w` from `i` on.
pub open spec fn reads(u: Kinds, fold: bool, w: Seq<char>, t: Seq<char>, i: int) -> bool {
    i + w.len() <= t.len() && forall|k: int|
        0 <= k < w.len() ==> (t[i + k] == #[trigger] w[k] || (fold && (u.folds)(t[i + k], w[k])))
}

pub open spec fn ending_end(u: Kinds, fold: bool, v: Seq<Seq<char>>, j: int, t: Seq<char>, i: int) -> Option<int>
    decreases v.len() - j,
{
    if j < 0 || j >= v.len() {
        None
    } else if reads(u, fold, v[j], t, i) {
        Some(i + v[j].len())
    } else {
        ending_end(u, fold, v, j + 1, t, i)
    }
}

pub open spec fn alt_end(u: Kinds, a: Alt, t: Seq<char>, i: int) -> Option<int> {
    match a {
        Alt::Endings { fold, words } => if 0 <= i < t.len() && t[i] == '\'' {
            ending_end(u, fold, words, 0, t, i + 1)
        } else {
            None
        },
        Alt::Parts(v) => parts_end(u, v, 0, t, i),
    }
}

/// Where the match from `i` on ends: the first alternative that matches counts.
pub open spec fn match_end(u: Kinds, v: Seq<Alt>, j: int, t: Seq<char>, i: int) -> Option<int>
    decreases v.len() - j,
{
    if j < 0 || j >= v.len() {
        None
    } else {
        match alt_end(u, v[j], t, i) {
            Some(e) => Some(e),
            None => match_end(u, v, j + 1, t, i),
        }
    }
}

// ---------- the families ----------

pub open spec fn contractions() -> Seq<Seq<char>> {
    seq![seq!['s'], seq!['t'], seq!['r', 'e'], seq!['v', 'e'], seq!['m'], seq!['l', 'l'], seq!['d']]
}

pub open spec fn breaks() -> Charset {
    Charset::In(seq![Class::Return, Class::Newline])
}

pub open spec fn spaces(n: Times) -> Part {
    Part::Run(Charset::Of(Class::Space), n)
}

/// The shape of the three younger families: `word` is what a word is made of,
/// `numbers` how many digits stand together, `other` what is neither.
pub open spec fn younger(word: Charset, numbers: Times, other: Charset) -> Seq<Alt> {
    seq![
        Alt::Endings { fold: true, words: contractions() },
        Alt::Parts(
            seq![
                Part::Run(
                    Charset::NotIn(seq![Class::Return, Class::Newline, Class::Letter, Class::Number]),
                    Times::Maybe,
                ),
                Part::Run(word, Times::Many),
            ],
        ),
        Alt::Parts(seq![Part::Run(Charset::Of(Class::Number), numbers)]),
        Alt::Parts(
            seq![
                Part::Run(Charset::Blank, Times::Maybe),
                Part::Run(other, Times::Many),
                Part::Run(breaks(), Times::Any),
            ],
        ),
        Alt::Parts(seq![spaces(Times::Any), Part::Run(breaks(), Times::Many)]),
        Alt::Parts(seq![spaces(Times::Many), Part::NotBeforeText]),
        Alt::Parts(seq![spaces(Times::Many)]),
    ]
}

pub open spec fn oldest() -> Seq<Alt> {
    seq![
        Alt::Endings { fold: false, words: contractions() },
        Alt::Parts(seq![Part::Run(Charset::Blank, Times::Maybe), Part::Run(Charset::Of(Class::Letter), Times::Many)]),
        Alt::Parts(seq![Part::Run(Charset::Blank, Times::Maybe), Part::Run(Charset::Of(Class::Number), Times::Many)]),
        Alt::Parts(
            seq![
                Part::Run(Charset::Blank, Times::Maybe),
                Part::Run(Charset::NotIn(seq![Class::Space, Class::Letter, Class::Number]), Times::Many),
            ],
        ),
        Alt::Parts(seq![spaces(Times::Many), Part::NotBeforeText]),
        Alt::Parts(seq![spaces(Times::Many)]),
    ]
}

/// The expression of a family, as a grammar.
pub open spec fn family(pre: Seq<char>) -> Seq<Alt> {
    if pre == "qwen2"@ {
        younger(
            Charset::Of(Class::Letter),
            Times::One,
            Charset::NotIn(seq![Class::Space, Class::Letter, Class::Number]),
        )
    } else if pre == "qwen35"@ {
        younger(
            Charset::In(seq![Class::Letter, Class::Mark]),
            Times::One,
            Charset::NotIn(seq![Class::Space, Class::Letter, Class::Mark, Class::Number]),
        )
    } else if pre == "llama3"@ || pre == "llama-bpe"@ {
        younger(
            Charset::Of(Class::Letter),
            Times::UpToThree,
            Charset::NotIn(seq![Class::Space, Class::Letter, Class::Number]),
        )
    } else {
        oldest()
    }
}

// ---------- the texts of the expressions ----------

proof fn lemma_class_texts()
    ensures
        r"\p{L}"@ == seq!['\\', 'p', '{', 'L', '}'],
        r"\p{M}"@ == seq!['\\', 'p', '{', 'M', '}'],
        r"\p{N}"@ == seq!['\\', 'p', '{', 'N', '}'],
        r"\s"@ == seq!['\\', 's'],
        r"\r"@ == seq!['\\', 'r'],
        r"\n"@ == seq!['\\', 'n'],
        r"(?!\S)"@ == seq!['(', '?', '!', '\\', 'S', ')'],
{
    reveal_strlit(r"\p{L}");
    reveal_strlit(r"\p{M}");
    reveal_strlit(r"\p{N}");
    reveal_strlit(r"\s");
    reveal_strlit(r"\r");
    reveal_strlit(r"\n");
    reveal_strlit(r"(?!\S)");
    assert(r"\p{L}"@ =~= seq!['\\', 'p', '{', 'L', '}']);
    assert(r"\p{M}"@ =~= seq!['\\', 'p', '{', 'M', '}']);
    assert(r"\p{N}"@ =~= seq!['\\', 'p', '{', 'N', '}']);
    assert(r"\s"@ =~= seq!['\\', 's']);
    assert(r"\r"@ =~= seq!['\\', 'r']);
    assert(r"\n"@ =~= seq!['\\', 'n']);
    assert(r"(?!\S)"@ =~= seq!['(', '?', '!', '\\', 'S', ')']);
}

proof fn lemma_endings_text()
    ensures
        endings_text(contractions(), 0) == "'s|'t|'re|'ve|'m|'ll|'d"@,
{
    let v = contractions();
    reveal_strlit("'s|'t|'re|'ve|'m|'ll|'d");
    assert(endings_text(v, 6) =~= seq!['\'', 'd']);
    assert(endings_text(v, 5) =~= seq!['\'', 'l', 'l', '|', '\'', 'd']);
    assert(endings_text(v, 4) =~= seq!['\'', 'm', '|', '\'', 'l', 'l', '|', '\'', 'd']);
    assert(endings_text(v, 3) =~= seq!['\'', 'v', 'e', '|'] + endings_text(v, 4));
    assert(endings_text(v, 2) =~= seq!['\'', 'r', 'e', '|'] + endings_text(v, 3));
    assert(endings_text(v, 1) =~= seq!['\'', 't', '|'] + endings_text(v, 2));
    assert(endings_text(v, 0) =~= seq!['\'', 's', '|'] + endings_text(v, 1));
    assert(endings_text(v, 0) =~= "'s|'t|'re|'ve|'m|'ll|'d"@);
}

proof fn lemma_classes_text(v: Seq<Class>)
    ensures
        v.len() == 2 ==> classes_text(v, 0) == class_text(v[0]) + class_text(v[1]),
        v.len() == 3 ==> classes_text(v, 0) == class_text(v[0]) + class_text(v[1]) + class_text(v[2]),
        v.len() == 4 ==> classes_text(v, 0) == class_text(v[0]) + class_text(v[1]) + class_text(v[2]) + class_text(v[3]),
{
    reveal_with_fuel(classes_text, 5);
    if v.len() == 2 {
        assert(classes_text(v, 0) =~= class_text(v[0]) + class_text(v[1]));
    }
    if v.len() == 3 {
        assert(classes_text(v, 0) =~= class_text(v[0]) + class_text(v[1]) + class_text(v[2]));
    }
    if v.len() == 4 {
        assert(classes_text(v, 0) =~= class_text(v[0]) + class_text(v[1]) + class_text(v[2]) + class_text(v[3]));
    }
}

proof fn lemma_three(a: Seq<char>, b: Seq<char>, c: Seq<char>)
    ensures
        a + Seq::empty() == a,
        a + (b + c) == a + b + c,
{
    assert(a + Seq::empty() =~= a);
    assert(a + (b + c) =~= a + b + c);
}

proof fn lemma_parts_text(v: Seq<Part>)
    ensures
        v.len() == 1 ==> parts_text(v, 0) == part_text(v[0]),
        v.len() == 2 ==> parts_text(v, 0) == part_text(v[0]) + part_text(v[1]),
        v.len() == 3 ==> parts_text(v, 0) == part_text(v[0]) + part_text(v[1]) + part_text(v[2]),
{
    assert(parts_text(v, v.len()) == Seq::<char>::empty());
    if v.len() == 1 {
        lemma_three(part_text(v[0]), Seq::empty(), Seq::empty());
    }
    if v.len() == 2 {
        lemma_three(part_text(v[1]), Seq::empty(), Seq::empty());
        assert(parts_text(v, 1) == part_text(v[1]) + parts_text(v, 2));
    }
    if v.len() == 3 {
        lemma_three(part_text(v[2]), Seq::empty(), Seq::empty());
        lemma_three(part_text(v[0]), part_text(v[1]), part_text(v[2]));
        assert(parts_text(v, 2) == part_text(v[2]) + parts_text(v, 3));
        assert(parts_text(v, 1) == part_text(v[1]) + parts_text(v, 2));
    }
}

/// The texts of the charsets.
proof fn lemma_charsets()
    ensures
        charset_text(Charset::NotIn(seq![Class::Return, Class::Newline, Class::Letter, Class::Number]))
            == r"[^\r\n\p{L}\p{N}]"@,
        charset_text(Charset::NotIn(seq![Class::Space, Class::Letter, Class::Number])) == r"[^\s\p{L}\p{N}]"@,
        charset_text(Charset::NotIn(seq![Class::Space, Class::Letter, Class::Mark, Class::Number]))
            == r"[^\s\p{L}\p{M}\p{N}]"@,
        charset_text(Charset::In(seq![Class::Letter, Class::Mark])) == r"[\p{L}\p{M}]"@,
        charset_text(breaks()) == r"[\r\n]"@,
{
    lemma_class_texts();
    reveal_strlit(r"[^\r\n\p{L}\p{N}]");
    reveal_strlit(r"[^\s\p{L}\p{N}]");
    reveal_strlit(r"[^\s\p{L}\p{M}\p{N}]");
    reveal_strlit(r"[\p{L}\p{M}]");
    reveal_strlit(r"[\r\n]");
    lemma_classes_text(seq![Class::Return, Class::Newline, Class::Letter, Class::Number]);
    lemma_classes_text(seq![Class::Space, Class::Letter, Class::Number]);
    lemma_classes_text(seq![Class::Space, Class::Letter, Class::Mark, Class::Number]);
    lemma_classes_text(seq![Class::Letter, Class::Mark]);
    lemma_classes_text(seq![Class::Return, Class::Newline]);
    assert(charset_text(Charset::NotIn(seq![Class::Return, Class::Newline, Class::Letter, Class::Number]))
        =~= r"[^\r\n\p{L}\p{N}]"@);
    assert(charset_text(Charset::NotIn(seq![Class::Space, Class::Letter, Class::Number])) =~= r"[^\s\p{L}\p{N}]"@);
    assert(charset_text(Charset::NotIn(seq![Class::Space, Class::Letter, Class::Mark, Class::Number]))
        =~= r"[^\s\p{L}\p{M}\p{N}]"@);
    assert(charset_text(Charset::In(seq![Class::Letter, Class::Mark])) =~= r"[\p{L}\p{M}]"@);
    assert(charset_text(breaks()) =~= r"[\r\n]"@);
}

/// The text of a younger expression, from those of its charsets.
proof fn lemma_younger_text(word: Charset, numbers: Times, other: Charset)
    ensures
        pattern_text(younger(word, numbers, other), 0) == "(?i:"@ + "'s|'t|'re|'ve|'m|'ll|'d"@ + ")|"@
            + r"[^\r\n\p{L}\p{N}]"@ + "?"@ + charset_text(word) + "+|"@ + r"\p{N}"@ + times_text(numbers) + "| ?"@
            + charset_text(other) + "+"@ + r"[\r\n]"@ + "*|"@ + r"\s*[\r\n]+|\s+(?!\S)|\s+"@,
{
    let v = younger(word, numbers, other);
    lemma_class_texts();
    lemma_charsets();
    lemma_endings_text();
    reveal_strlit("(?i:");
    reveal_strlit(")|");
    reveal_strlit("?");
    reveal_strlit("+|");
    reveal_strlit("| ?");
    reveal_strlit("+");
    reveal_strlit("*|");
    reveal_strlit(r"[\r\n]");
    reveal_strlit(r"\s*[\r\n]+|\s+(?!\S)|\s+");
    assert forall|j: int| 1 <= j < 7 implies #[trigger] alt_text(v[j]) == parts_text(v[j]->Parts_0, 0) by {}
    lemma_parts_text(v[1]->Parts_0);
    lemma_parts_text(v[2]->Parts_0);
    lemma_parts_text(v[3]->Parts_0);
    lemma_parts_text(v[4]->Parts_0);
    lemma_parts_text(v[5]->Parts_0);
    lemma_parts_text(v[6]->Parts_0);
    assert(alt_text(v[6]) =~= seq!['\\', 's', '+']);
    assert(alt_text(v[5]) =~= seq!['\\', 's', '+', '(', '?', '!', '\\', 'S', ')']);
    assert(alt_text(v[4]) =~= seq!['\\', 's', '*'] + r"[\r\n]"@ + seq!['+']);
    assert(pattern_text(v, 6) =~= seq!['\\', 's', '+']);
    assert(pattern_text(v, 5) =~= alt_text(v[5]) + seq!['|'] + pattern_text(v, 6));
    assert(pattern_text(v, 4) =~= alt_text(v[4]) + seq!['|'] + pattern_text(v, 5));
    assert(pattern_text(v, 4) =~= r"\s*[\r\n]+|\s+(?!\S)|\s+"@);
    let tail = r"\s*[\r\n]+|\s+(?!\S)|\s+"@;
    assert(alt_text(v[3]) =~= seq![' ', '?'] + charset_text(other) + seq!['+'] + r"[\r\n]"@ + seq!['*']);
    assert(alt_text(v[2]) =~= r"\p{N}"@ + times_text(numbers));
    assert(alt_text(v[1]) =~= r"[^\r\n\p{L}\p{N}]"@ + seq!['?'] + charset_text(word) + seq!['+']);
    assert(alt_text(v[0]) =~= seq!['(', '?', 'i', ':'] + "'s|'t|'re|'ve|'m|'ll|'d"@ + seq![')']);
    assert(pattern_text(v, 3) == alt_text(v[3]) + seq!['|'] + tail);
    assert(pattern_text(v, 2) == alt_text(v[2]) + seq!['|'] + pattern_text(v, 3));
    assert(pattern_text(v, 1) == alt_text(v[1]) + seq!['|'] + pattern_text(v, 2));
    assert(pattern_text(v, 0) == alt_text(v[0]) + seq!['|'] + pattern_text(v, 1));
    assert("(?i:"@ =~= seq!['(', '?', 'i', ':']);
    assert(")|"@ =~= seq![')', '|']);
    assert("?"@ =~= seq!['?']);
    assert("+|"@ =~= seq!['+', '|']);
    assert("| ?"@ =~= seq!['|', ' ', '?']);
    assert("+"@ =~= seq!['+']);
    assert("*|"@ =~= seq!['*', '|']);
    lemma_joined(
        "'s|'t|'re|'ve|'m|'ll|'d"@,
        r"[^\r\n\p{L}\p{N}]"@,
        charset_text(word),
        r"\p{N}"@,
        times_text(numbers),
        charset_text(other),
        r"[\r\n]"@,
        tail,
    );
}

proof fn lemma_joined(
    a: Seq<char>,
    b: Seq<char>,
    w: Seq<char>,
    n: Seq<char>,
    m: Seq<char>,
    o: Seq<char>,
    r: Seq<char>,
    z: Seq<char>,
)
    ensures
        (seq!['(', '?', 'i', ':'] + a + seq![')']) + seq!['|'] + ((b + seq!['?'] + w + seq!['+']) + seq!['|'] + ((n + m)
            + seq!['|'] + ((seq![' ', '?'] + o + seq!['+'] + r + seq!['*']) + seq!['|'] + z))) == seq!['(', '?', 'i', ':']
            + a + seq![')', '|'] + b + seq!['?'] + w + seq!['+', '|'] + n + m + seq!['|', ' ', '?'] + o + seq!['+'] + r
            + seq!['*', '|'] + z,
{
    assert((seq!['(', '?', 'i', ':'] + a + seq![')']) + seq!['|'] + ((b + seq!['?'] + w + seq!['+']) + seq!['|'] + ((n
        + m) + seq!['|'] + ((seq![' ', '?'] + o + seq!['+'] + r + seq!['*']) + seq!['|'] + z))) =~= seq!['(', '?', 'i', ':']
        + a + seq![')', '|'] + b + seq!['?'] + w + seq!['+', '|'] + n + m + seq!['|', ' ', '?'] + o + seq!['+'] + r
        + seq!['*', '|'] + z);
}

proof fn lemma_qwen2_literal()
    ensures
        "(?i:"@ + "'s|'t|'re|'ve|'m|'ll|'d"@ + ")|"@ + r"[^\r\n\p{L}\p{N}]"@ + "?"@ + r"\p{L}"@ + "+|"@ + r"\p{N}"@ + Seq::<char>::empty() + "| ?"@ + r"[^\s\p{L}\p{N}]"@ + "+"@ + r"[\r\n]"@ + "*|"@ + r"\s*[\r\n]+|\s+(?!\S)|\s+"@ == r"(?i:'s|'t|'re|'ve|'m|'ll|'d)|[^\r\n\p{L}\p{N}]?\p{L}+|\p{N}| ?[^\s\p{L}\p{N}]+[\r\n]*|\s*[\r\n]+|\s+(?!\S)|\s+"@,
{
    reveal_strlit(r"(?i:'s|'t|'re|'ve|'m|'ll|'d)|[^\r\n\p{L}\p{N}]?\p{L}+|\p{N}| ?[^\s\p{L}\p{N}]+[\r\n]*|\s*[\r\n]+|\s+(?!\S)|\s+");
    reveal_strlit("(?i:");
    reveal_strlit("'s|'t|'re|'ve|'m|'ll|'d");
    reveal_strlit(")|");
    reveal_strlit(r"[^\r\n\p{L}\p{N}]");
    reveal_strlit("?");
    reveal_strlit(r"\p{L}");
    reveal_strlit("+|");
    reveal_strlit(r"\p{N}");
    reveal_strlit("| ?");
    reveal_strlit(r"[^\s\p{L}\p{N}]");
    reveal_strlit("+");
    reveal_strlit(r"[\r\n]");
    reveal_strlit("*|");
    reveal_strlit(r"\s*[\r\n]+|\s+(?!\S)|\s+");
    assert("(?i:"@ + "'s|'t|'re|'ve|'m|'ll|'d"@ + ")|"@ + r"[^\r\n\p{L}\p{N}]"@ + "?"@ + r"\p{L}"@ + "+|"@ + r"\p{N}"@ + Seq::<char>::empty() + "| ?"@ + r"[^\s\p{L}\p{N}]"@ + "+"@ + r"[\r\n]"@ + "*|"@ + r"\s*[\r\n]+|\s+(?!\S)|\s+"@ =~= r"(?i:'s|'t|'re|'ve|'m|'ll|'d)|[^\r\n\p{L}\p{N}]?\p{L}+|\p{N}| ?[^\s\p{L}\p{N}]+[\r\n]*|\s*[\r\n]+|\s+(?!\S)|\s+"@);
}

proof fn lemma_qwen35_literal()
    ensures
        "(?i:"@ + "'s|'t|'re|'ve|'m|'ll|'d"@ + ")|"@ + r"[^\r\n\p{L}\p{N}]"@ + "?"@ + r"[\p{L}\p{M}]"@ + "+|"@ + r"\p{N}"@ + Seq::<char>::empty() + "| ?"@ + r"[^\s\p{L}\p{M}\p{N}]"@ + "+"@ + r"[\r\n]"@ + "*|"@ + r"\s*[\r\n]+|\s+(?!\S)|\s+"@ == r"(?i:'s|'t|'re|'ve|'m|'ll|'d)|[^\r\n\p{L}\p{N}]?[\p{L}\p{M}]+|\p{N}| ?[^\s\p{L}\p{M}\p{N}]+[\r\n]*|\s*[\r\n]+|\s+(?!\S)|\s+"@,
{
    reveal_strlit(r"(?i:'s|'t|'re|'ve|'m|'ll|'d)|[^\r\n\p{L}\p{N}]?[\p{L}\p{M}]+|\p{N}| ?[^\s\p{L}\p{M}\p{N}]+[\r\n]*|\s*[\r\n]+|\s+(?!\S)|\s+");
    reveal_strlit("(?i:");
    reveal_strlit("'s|'t|'re|'ve|'m|'ll|'d");
    reveal_strlit(")|");
    reveal_strlit(r"[^\r\n\p{L}\p{N}]");
    reveal_strlit("?");
    reveal_strlit(r"[\p{L}\p{M}]");
    reveal_strlit("+|");
    reveal_strlit(r"\p{N}");
    reveal_strlit("| ?");
    reveal_strlit(r"[^\s\p{L}\p{M}\p{N}]");
    reveal_strlit("+");
    reveal_strlit(r"[\r\n]");
    reveal_strlit("*|");
    reveal_strlit(r"\s*[\r\n]+|\s+(?!\S)|\s+");
    assert("(?i:"@ + "'s|'t|'re|'ve|'m|'ll|'d"@ + ")|"@ + r"[^\r\n\p{L}\p{N}]"@ + "?"@ + r"[\p{L}\p{M}]"@ + "+|"@ + r"\p{N}"@ + Seq::<char>::empty() + "| ?"@ + r"[^\s\p{L}\p{M}\p{N}]"@ + "+"@ + r"[\r\n]"@ + "*|"@ + r"\s*[\r\n]+|\s+(?!\S)|\s+"@ =~= r"(?i:'s|'t|'re|'ve|'m|'ll|'d)|[^\r\n\p{L}\p{N}]?[\p{L}\p{M}]+|\p{N}| ?[^\s\p{L}\p{M}\p{N}]+[\r\n]*|\s*[\r\n]+|\s+(?!\S)|\s+"@);
}

proof fn lemma_llama3_literal()
    ensures
        "(?i:"@ + "'s|'t|'re|'ve|'m|'ll|'d"@ + ")|"@ + r"[^\r\n\p{L}\p{N}]"@ + "?"@ + r"\p{L}"@ + "+|"@ + r"\p{N}"@ + seq!['{', '1', ',', '3', '}'] + "| ?"@ + r"[^\s\p{L}\p{N}]"@ + "+"@ + r"[\r\n]"@ + "*|"@ + r"\s*[\r\n]+|\s+(?!\S)|\s+"@ == r"(?i:'s|'t|'re|'ve|'m|'ll|'d)|[^\r\n\p{L}\p{N}]?\p{L}+|\p{N}{1,3}| ?[^\s\p{L}\p{N}]+[\r\n]*|\s*[\r\n]+|\s+(?!\S)|\s+"@,
{
    reveal_strlit(r"(?i:'s|'t|'re|'ve|'m|'ll|'d)|[^\r\n\p{L}\p{N}]?\p{L}+|\p{N}{1,3}| ?[^\s\p{L}\p{N}]+[\r\n]*|\s*[\r\n]+|\s+(?!\S)|\s+");
    reveal_strlit("(?i:");
    reveal_strlit("'s|'t|'re|'ve|'m|'ll|'d");
    reveal_strlit(")|");
    reveal_strlit(r"[^\r\n\p{L}\p{N}]");
    reveal_strlit("?");
    reveal_strlit(r"\p{L}");
    reveal_strlit("+|");
    reveal_strlit(r"\p{N}");
    reveal_strlit("| ?");
    reveal_strlit(r"[^\s\p{L}\p{N}]");
    reveal_strlit("+");
    reveal_strlit(r"[\r\n]");
    reveal_strlit("*|");
    reveal_strlit(r"\s*[\r\n]+|\s+(?!\S)|\s+");
    assert("(?i:"@ + "'s|'t|'re|'ve|'m|'ll|'d"@ + ")|"@ + r"[^\r\n\p{L}\p{N}]"@ + "?"@ + r"\p{L}"@ + "+|"@ + r"\p{N}"@ + seq!['{', '1', ',', '3', '}'] + "| ?"@ + r"[^\s\p{L}\p{N}]"@ + "+"@ + r"[\r\n]"@ + "*|"@ + r"\s*[\r\n]+|\s+(?!\S)|\s+"@ =~= r"(?i:'s|'t|'re|'ve|'m|'ll|'d)|[^\r\n\p{L}\p{N}]?\p{L}+|\p{N}{1,3}| ?[^\s\p{L}\p{N}]+[\r\n]*|\s*[\r\n]+|\s+(?!\S)|\s+"@);
}

/// The text of the oldest expression.
proof fn lemma_oldest_text()
    ensures
        pattern_text(oldest(), 0) == r"'s|'t|'re|'ve|'m|'ll|'d| ?\p{L}+| ?\p{N}+| ?[^\s\p{L}\p{N}]+|\s+(?!\S)|\s+"@,
{
    let v = oldest();
    lemma_class_texts();
    lemma_charsets();
    lemma_endings_text();
    reveal_strlit("'s|'t|'re|'ve|'m|'ll|'d");
    reveal_strlit(r"[^\s\p{L}\p{N}]");
    reveal_strlit(r"'s|'t|'re|'ve|'m|'ll|'d| ?\p{L}+| ?\p{N}+| ?[^\s\p{L}\p{N}]+|\s+(?!\S)|\s+");
    lemma_parts_text(v[1]->Parts_0);
    lemma_parts_text(v[2]->Parts_0);
    lemma_parts_text(v[3]->Parts_0);
    lemma_parts_text(v[4]->Parts_0);
    lemma_parts_text(v[5]->Parts_0);
    assert(alt_text(v[5]) =~= seq!['\\', 's', '+']);
    assert(alt_text(v[4]) =~= seq!['\\', 's', '+', '(', '?', '!', '\\', 'S', ')']);
    assert(alt_text(v[3]) =~= seq![' ', '?'] + r"[^\s\p{L}\p{N}]"@ + seq!['+']);
    assert(alt_text(v[2]) =~= seq![' ', '?', '\\', 'p', '{', 'N', '}', '+']);
    assert(alt_text(v[1]) =~= seq![' ', '?', '\\', 'p', '{', 'L', '}', '+']);
    assert(alt_text(v[0]) == "'s|'t|'re|'ve|'m|'ll|'d"@);
    assert(pattern_text(v, 5) == alt_text(v[5]));
    assert(pattern_text(v, 4) == alt_text(v[4]) + seq!['|'] + pattern_text(v, 5));
    assert(pattern_text(v, 3) == alt_text(v[3]) + seq!['|'] + pattern_text(v, 4));
    assert(pattern_text(v, 2) == alt_text(v[2]) + seq!['|'] + pattern_text(v, 3));
    assert(pattern_text(v, 1) == alt_text(v[1]) + seq!['|'] + pattern_text(v, 2));
    assert(pattern_text(v, 0) == alt_text(v[0]) + seq!['|'] + pattern_text(v, 1));
    assert(pattern_text(v, 0)
        =~= r"'s|'t|'re|'ve|'m|'ll|'d| ?\p{L}+| ?\p{N}+| ?[^\s\p{L}\p{N}]+|\s+(?!\S)|\s+"@);
}

/// The expression of each family is the text of its grammar.
pub proof fn lemma_expression_is_the_grammar(pre: Seq<char>)
    ensures
        family_regex(pre) == pattern_text(family(pre), 0),
{
    lemma_class_texts();
    lemma_charsets();
    if pre == "qwen2"@ {
        lemma_younger_text(
            Charset::Of(Class::Letter),
            Times::One,
            Charset::NotIn(seq![Class::Space, Class::Letter, Class::Number]),
        );
        lemma_qwen2_literal();
    } else if pre == "qwen35"@ {
        lemma_younger_text(
            Charset::In(seq![Class::Letter, Class::Mark]),
            Times::One,
            Charset::NotIn(seq![Class::Space, Class::Letter, Class::Mark, Class::Number]),
        );
        lemma_qwen35_literal();
    } else if pre == "llama3"@ || pre == "llama-bpe"@ {
        lemma_younger_text(
            Charset::Of(Class::Letter),
            Times::UpToThree,
            Charset::NotIn(seq![Class::Space, Class::Letter, Class::Number]),
        );
        lemma_llama3_literal();
    } else {
        lemma_oldest_text();
    }
}

// ---------- where the pieces end ----------

/// The characters from `i` up to `e` are all of the kind, and no more follow.
pub open spec fn stretch(p: spec_fn(char) -> bool, t: Seq<char>, i: int, e: int) -> bool {
    &&& 0 <= i <= e <= t.len()
    &&& forall|k: int| i <= k < e ==> p(#[trigger] t[k])
    &&& e == t.len() || !p(t[e])
}

proof fn lemma_run(u: Kinds, s: Charset, p: spec_fn(char) -> bool, t: Seq<char>, i: int, e: int)
    requires
        forall|c: char| #[trigger] taken(u, s, c) == p(c),
        stretch(p, t, i, e),
    ensures
        run(u, s, t, i) == e - i,
    decreases e - i,
{
    if i < e {
        assert(p(t[i]));
        assert(taken(u, s, t[i]));
        lemma_run(u, s, p, t, i + 1, e);
    } else if i < t.len() {
        assert(!taken(u, s, t[i]));
    }
}

/// The last part of an alternative takes all it can.
proof fn lemma_last(u: Kinds, v: Seq<Part>, s: Charset, n: Times, t: Seq<char>, i: int)
    requires
        v.len() > 0,
        v.last() == Part::Run(s, n),
    ensures
        parts_end(u, v, v.len() - 1, t, i) == (if most(n, run(u, s, t, i)) < least(n) {
            None
        } else {
            Some(i + most(n, run(u, s, t, i)))
        }),
{
    let (j, k) = (v.len() - 1, most(n, run(u, s, t, i)));
    assert(parts_end(u, v, j + 1, t, i + k) == Some(i + k));
    assert(parts_end(u, v, j, t, i) == giving_back(u, v, j, n, t, i, k));
    assert(giving_back(u, v, j, n, t, i, k) == (if k < least(n) {
        None
    } else {
        Some(i + k)
    }));
}

/// One character that may lead, and a run behind it.
proof fn lemma_led(u: Kinds, lead: Charset, s: Charset, t: Seq<char>, i: int)
    requires
        0 <= i < t.len(),
    ensures
        parts_end(u, seq![Part::Run(lead, Times::Maybe), Part::Run(s, Times::Many)], 0, t, i) == (if taken(
            u,
            lead,
            t[i],
        ) && run(u, s, t, i + 1) > 0 {
            Some(i + 1 + run(u, s, t, i + 1))
        } else if run(u, s, t, i) > 0 {
            Some(i + run(u, s, t, i))
        } else {
            None
        }),
{
    let v = seq![Part::Run(lead, Times::Maybe), Part::Run(s, Times::Many)];
    lemma_last(u, v, s, Times::Many, t, i);
    lemma_last(u, v, s, Times::Many, t, i + 1);
    assert(v[0] == Part::Run(lead, Times::Maybe));
    assert(run(u, lead, t, i) > 0 <==> taken(u, lead, t[i]));
    let k = most(Times::Maybe, run(u, lead, t, i));
    assert(parts_end(u, v, 0, t, i) == giving_back(u, v, 0, Times::Maybe, t, i, k));
    assert(giving_back(u, v, 0, Times::Maybe, t, i, 0) == parts_end(u, v, 1, t, i + 0));
    if k == 1 {
        assert(giving_back(u, v, 0, Times::Maybe, t, i, 1) == match parts_end(u, v, 1, t, i + 1) {
            Some(e) => Some(e),
            None => giving_back(u, v, 0, Times::Maybe, t, i, 0),
        });
    }
}

/// A blank that may lead, a run, and a second run that may be empty.
proof fn lemma_led_and_closed(u: Kinds, s: Charset, z: Charset, t: Seq<char>, i: int)
    requires
        0 <= i < t.len(),
    ensures
        ({
            let r = parts_end(
                u,
                seq![Part::Run(Charset::Blank, Times::Maybe), Part::Run(s, Times::Many), Part::Run(z, Times::Any)],
                0,
                t,
                i,
            );
            let (a, b) = (i + run(u, s, t, i), i + 1 + run(u, s, t, i + 1));
            if t[i] == ' ' && b > i + 1 {
                r == Some(b + run(u, z, t, b))
            } else if a > i {
                r == Some(a + run(u, z, t, a))
            } else {
                r is None
            }
        }),
{
    let v = seq![Part::Run(Charset::Blank, Times::Maybe), Part::Run(s, Times::Many), Part::Run(z, Times::Any)];
    assert(v[0] == Part::Run(Charset::Blank, Times::Maybe));
    assert(v[1] == Part::Run(s, Times::Many));
    assert forall|x: int|
        #![trigger parts_end(u, v, 1, t, x)]
        parts_end(u, v, 1, t, x) == (if run(u, s, t, x) > 0 {
            Some(x + run(u, s, t, x) + run(u, z, t, x + run(u, s, t, x)))
        } else {
            None
        }) by {
        let k = run(u, s, t, x);
        lemma_last(u, v, z, Times::Any, t, x + k);
        assert(parts_end(u, v, 1, t, x) == giving_back(u, v, 1, Times::Many, t, x, k));
    }
    assert(run(u, Charset::Blank, t, i) > 0 <==> t[i] == ' ');
    let k = most(Times::Maybe, run(u, Charset::Blank, t, i));
    assert(parts_end(u, v, 0, t, i) == giving_back(u, v, 0, Times::Maybe, t, i, k));
    assert(giving_back(u, v, 0, Times::Maybe, t, i, 0) == parts_end(u, v, 1, t, i + 0));
    if k == 1 {
        assert(giving_back(u, v, 0, Times::Maybe, t, i, 1) == match parts_end(u, v, 1, t, i + 1) {
            Some(e) => Some(e),
            None => giving_back(u, v, 0, Times::Maybe, t, i, 0),
        });
    }
}

/// White space that no text may follow: all of it at the end of the text, else all
/// but the last.
proof fn lemma_space_before_text(u: Kinds, t: Seq<char>, i: int, e: int)
    requires
        stretch(u.space, t, i, e),
    ensures
        parts_end(u, seq![spaces(Times::Many), Part::NotBeforeText], 0, t, i) == (if i == e {
            None
        } else if e == t.len() {
            Some(e)
        } else if e == i + 1 {
            None
        } else {
            Some(e - 1)
        }),
        parts_end(u, seq![spaces(Times::Many)], 0, t, i) == (if i == e {
            None
        } else {
            Some(e)
        }),
{
    let s = Charset::Of(Class::Space);
    lemma_run(u, s, u.space, t, i, e);
    lemma_last(u, seq![spaces(Times::Many)], s, Times::Many, t, i);
    let v = seq![spaces(Times::Many), Part::NotBeforeText];
    assert(v[0] == Part::Run(s, Times::Many));
    assert(v[1] == Part::NotBeforeText);
    let k = (e - i) as nat;
    assert(parts_end(u, v, 0, t, i) == giving_back(u, v, 0, Times::Many, t, i, k));
    assert forall|x: int|
        #![trigger parts_end(u, v, 1, t, x)]
        i <= x <= e implies parts_end(u, v, 1, t, x) == (if x < t.len() && !(u.space)(t[x]) {
            None
        } else {
            Some(x)
        }) by {
        assert(parts_end(u, v, 2, t, x) == Some(x));
    }
    if k > 0 {
        assert(giving_back(u, v, 0, Times::Many, t, i, k) == match parts_end(u, v, 1, t, e) {
            Some(x) => Some(x),
            None => giving_back(u, v, 0, Times::Many, t, i, (k - 1) as nat),
        });
        if k > 1 {
            assert((u.space)(t[e - 1]));
            assert(giving_back(u, v, 0, Times::Many, t, i, (k - 1) as nat) == match parts_end(u, v, 1, t, e - 1) {
                Some(x) => Some(x),
                None => giving_back(u, v, 0, Times::Many, t, i, (k - 2) as nat),
            });
        }
    }
}

/// A line break.
pub open spec fn is_break(c: char) -> bool {
    c == '\r' || c == '\n'
}

proof fn lemma_two(u: Kinds, a: Class, b: Class, x: char)
    ensures
        taken(u, Charset::In(seq![a, b]), x) == (of_class(u, a, x) || of_class(u, b, x)),
{
    reveal_with_fuel(listed, 3);
}

proof fn lemma_none_of(u: Kinds, v: Seq<Class>, x: char)
    requires
        v.len() == 3 || v.len() == 4,
    ensures
        taken(u, Charset::NotIn(v), x) == (!of_class(u, v[0], x) && !of_class(u, v[1], x) && !of_class(u, v[2], x) && (
        v.len() == 3 || !of_class(u, v[3], x))),
{
    reveal_with_fuel(listed, 5);
}

proof fn lemma_breaks(u: Kinds)
    ensures
        forall|c: char| #[trigger] taken(u, breaks(), c) == is_break(c),
{
    assert forall|c: char| #[trigger] taken(u, breaks(), c) == is_break(c) by {
        lemma_two(u, Class::Return, Class::Newline, c);
    }
}

/// White space up to its last line break: `last` is where that break stands, if
/// there is one among the first `k` characters.
proof fn lemma_up_to_break(u: Kinds, t: Seq<char>, i: int, e: int, k: nat, last: Option<int>)
    requires
        kinds_ok(u),
        stretch(u.space, t, i, e),
        k <= e - i,
        match last {
            Some(b) => i <= b < e && is_break(t[b]) && forall|x: int| b < x < e ==> !is_break(#[trigger] t[x]),
            None => forall|x: int| i <= x < e ==> !is_break(#[trigger] t[x]),
        },
        last matches Some(b) ==> b <= i + k,
    ensures
        giving_back(u, seq![spaces(Times::Any), Part::Run(breaks(), Times::Many)], 0, Times::Any, t, i, k) == (
        match last {
            Some(b) => Some(b + 1),
            None => None,
        }),
    decreases k,
{
    let v = seq![spaces(Times::Any), Part::Run(breaks(), Times::Many)];
    lemma_breaks(u);
    lemma_last(u, v, breaks(), Times::Many, t, i + k);
    if i + k < t.len() && is_break(t[i + k]) {
        assert((u.space)(t[i + k]));
        assert(i + k < e);
        assert(last is Some);
        let b = last->Some_0;
        assert(b == i + k);
        lemma_run(u, breaks(), |c: char| is_break(c), t, i + k, b + 1);
    } else {
        assert(run(u, breaks(), t, i + k) == 0);
        if k > 0 {
            lemma_up_to_break(u, t, i, e, (k - 1) as nat, last);
        }
    }
}

/// Where the piece of a text that starts at `i` ends, in a family.
pub open spec fn piece_end(pre: Seq<char>, u: Kinds, t: Seq<char>, i: int) -> Option<int> {
    match_end(u, family(pre), 0, t, i)
}

/// The families that name themselves; any other splits as the oldest.
pub open spec fn is_younger(pre: Seq<char>) -> bool {
    pre == "qwen2"@ || pre == "qwen35"@ || pre == "llama3"@ || pre == "llama-bpe"@
}

/// What words are made of: letters, and marks in one family.
pub open spec fn in_word(pre: Seq<char>, u: Kinds) -> spec_fn(char) -> bool {
    |c: char| (u.letter)(c) || (pre == "qwen35"@ && (u.mark)(c))
}

/// What is neither of a word nor a number nor white space.
pub open spec fn is_other(pre: Seq<char>, u: Kinds) -> spec_fn(char) -> bool {
    |c: char| !(u.letter)(c) && !(pre == "qwen35"@ && (u.mark)(c)) && !(u.number)(c) && !(u.space)(c)
}

/// The endings that an apostrophe contracts.
pub open spec fn is_ending(w: Seq<char>) -> bool {
    w == seq!['s'] || w == seq!['t'] || w == seq!['r', 'e'] || w == seq!['v', 'e'] || w == seq!['m'] || w == seq!['l', 'l']
        || w == seq!['d']
}

/// A contracted ending stands at `i`, in either case but for the oldest family.
pub open spec fn contracted(pre: Seq<char>, u: Kinds, t: Seq<char>, i: int) -> bool {
    t[i] == '\'' && exists|w: Seq<char>| is_ending(w) && #[trigger] reads(u, is_younger(pre), w, t, i + 1)
}

proof fn lemma_endings(pre: Seq<char>, u: Kinds, t: Seq<char>, i: int)
    requires
        kinds_ok(u),
        0 <= i < t.len(),
    ensures
        alt_end(u, family(pre)[0], t, i) is None <==> !contracted(pre, u, t, i),
        forall|w: Seq<char>|
            t[i] == '\'' && is_ending(w) && #[trigger] reads(u, is_younger(pre), w, t, i + 1) ==> alt_end(
                u,
                family(pre)[0],
                t,
                i,
            ) == Some(i + 1 + w.len()),
{
    let v = contractions();
    let f = is_younger(pre);
    assert(family(pre)[0] == Alt::Endings { fold: f, words: v });
    if t[i] == '\'' {
        assert forall|j: int| 0 <= j < 7 implies is_ending(#[trigger] v[j]) by {
            if j == 0 {
            } else if j == 1 {
            } else if j == 2 {
            } else if j == 3 {
            } else if j == 4 {
            } else if j == 5 {
            } else {
                assert(j == 6);
            }
        }
        lemma_endings_from(u, f, t, i + 1, 0);
        if let Some(e) = ending_end(u, f, v, 0, t, i + 1) {
            let j = choose|j: int| 0 <= j < 7 && #[trigger] reads(u, f, v[j], t, i + 1);
            assert(is_ending(v[j]));
            assert(contracted(pre, u, t, i));
        }
        assert forall|w: Seq<char>| is_ending(w) && #[trigger] reads(u, f, w, t, i + 1) implies ending_end(
            u,
            f,
            v,
            0,
            t,
            i + 1,
        ) == Some(i + 1 + w.len()) by {
            let j: int = if w == seq!['s'] {
                0
            } else if w == seq!['t'] {
                1
            } else if w == seq!['r', 'e'] {
                2
            } else if w == seq!['v', 'e'] {
                3
            } else if w == seq!['m'] {
                4
            } else if w == seq!['l', 'l'] {
                5
            } else {
                6
            };
            assert(w == v[j]);
            assert(reads(u, f, v[j], t, i + 1));
        }
    }
}

/// At most one of the endings is read.
proof fn lemma_endings_from(u: Kinds, f: bool, t: Seq<char>, i: int, j: int)
    requires
        kinds_ok(u),
        0 <= j <= 7,
    ensures
        ending_end(u, f, contractions(), j, t, i) is Some ==> exists|k: int|
            j <= k < 7 && #[trigger] reads(u, f, contractions()[k], t, i),
        forall|k: int|
            j <= k < 7 && #[trigger] reads(u, f, contractions()[k], t, i) ==> ending_end(u, f, contractions(), j, t, i)
                == Some(i + contractions()[k].len()),
    decreases 7 - j,
{
    let v = contractions();
    if j < 7 {
        lemma_endings_from(u, f, t, i, j + 1);
        assert(v[0][0] == 's' && v[1][0] == 't' && v[2][0] == 'r' && v[3][0] == 'v' && v[4][0] == 'm' && v[5][0] == 'l'
            && v[6][0] == 'd');
        assert forall|k: int|
            j <= k < 7 && #[trigger] reads(u, f, v[k], t, i) implies ending_end(u, f, v, j, t, i) == Some(
            i + v[k].len(),
        ) by {
            if reads(u, f, v[j], t, i) && k != j {
                assert(t[i + 0] == v[j][0] || (f && (u.folds)(t[i + 0], v[j][0])));
                assert(t[i + 0] == v[k][0] || (f && (u.folds)(t[i + 0], v[k][0])));
                assert((u.folds)(t[i], t[i]));
                assert(v[j][0] == v[k][0]);
                assert(false);
            }
        }
        if ending_end(u, f, v, j, t, i) is Some && !reads(u, f, v[j], t, i) {
            let k = choose|k: int| j + 1 <= k < 7 && #[trigger] reads(u, f, v[k], t, i);
            assert(reads(u, f, v[k], t, i));
        }
    }
}

/// A contracted ending is a piece with its apostrophe.
pub proof fn lemma_contraction_is_a_piece(pre: Seq<char>, u: Kinds, t: Seq<char>, i: int, w: Seq<char>)
    requires
        kinds_ok(u),
        0 <= i < t.len(),
        t[i] == '\'',
        is_ending(w),
        reads(u, is_younger(pre), w, t, i + 1),
    ensures
        piece_end(pre, u, t, i) == Some(i + 1 + w.len()),
{
    lemma_endings(pre, u, t, i);
}

spec fn word_set(pre: Seq<char>) -> Charset {
    if pre == "qwen35"@ {
        Charset::In(seq![Class::Letter, Class::Mark])
    } else {
        Charset::Of(Class::Letter)
    }
}

spec fn other_set(pre: Seq<char>) -> Charset {
    if pre == "qwen35"@ {
        Charset::NotIn(seq![Class::Space, Class::Letter, Class::Mark, Class::Number])
    } else {
        Charset::NotIn(seq![Class::Space, Class::Letter, Class::Number])
    }
}

spec fn lead_set() -> Charset {
    Charset::NotIn(seq![Class::Return, Class::Newline, Class::Letter, Class::Number])
}

/// Which characters the charsets of a family take.
proof fn lemma_sets(pre: Seq<char>, u: Kinds)
    ensures
        forall|c: char| #[trigger] taken(u, word_set(pre), c) == in_word(pre, u)(c),
        forall|c: char| #[trigger] taken(u, other_set(pre), c) == is_other(pre, u)(c),
        forall|c: char| #[trigger]
            taken(u, lead_set(), c) == (!is_break(c) && !(u.letter)(c) && !(u.number)(c)),
        forall|c: char| #[trigger] taken(u, Charset::Of(Class::Number), c) == (u.number)(c),
        forall|c: char| #[trigger] taken(u, Charset::Of(Class::Space), c) == (u.space)(c),
{
    assert forall|c: char| #[trigger] taken(u, word_set(pre), c) == in_word(pre, u)(c) by {
        lemma_two(u, Class::Letter, Class::Mark, c);
    }
    assert forall|c: char| #[trigger] taken(u, other_set(pre), c) == is_other(pre, u)(c) by {
        lemma_none_of(u, seq![Class::Space, Class::Letter, Class::Mark, Class::Number], c);
        lemma_none_of(u, seq![Class::Space, Class::Letter, Class::Number], c);
    }
    assert forall|c: char| #[trigger]
        taken(u, lead_set(), c) == (!is_break(c) && !(u.letter)(c) && !(u.number)(c)) by {
        lemma_none_of(u, seq![Class::Return, Class::Newline, Class::Letter, Class::Number], c);
    }
}

/// No run starts where the character is of another kind.
proof fn lemma_no_run(u: Kinds, s: Charset, t: Seq<char>, i: int)
    requires
        i >= t.len() || !taken(u, s, t[i]),
    ensures
        run(u, s, t, i) == 0,
{
}

spec fn parts(pre: Seq<char>, k: int) -> Seq<Part> {
    family(pre)[k]->Parts_0
}

/// The alternatives of a younger family in turn.
proof fn lemma_younger_turn(pre: Seq<char>, u: Kinds, t: Seq<char>, i: int)
    requires
        kinds_ok(u),
        is_younger(pre),
        0 <= i < t.len(),
        !contracted(pre, u, t, i),
    ensures
        parts(pre, 1) == seq![Part::Run(lead_set(), Times::Maybe), Part::Run(word_set(pre), Times::Many)],
        parts(pre, 2) == seq![
            Part::Run(
                Charset::Of(Class::Number),
                if pre == "llama3"@ || pre == "llama-bpe"@ {
                    Times::UpToThree
                } else {
                    Times::One
                },
            ),
        ],
        parts(pre, 3) == seq![
            Part::Run(Charset::Blank, Times::Maybe),
            Part::Run(other_set(pre), Times::Many),
            Part::Run(breaks(), Times::Any),
        ],
        parts(pre, 4) == seq![spaces(Times::Any), Part::Run(breaks(), Times::Many)],
        parts(pre, 5) == seq![spaces(Times::Many), Part::NotBeforeText],
        parts(pre, 6) == seq![spaces(Times::Many)],
        piece_end(pre, u, t, i) == match parts_end(u, parts(pre, 1), 0, t, i) {
            Some(e) => Some(e),
            None => match parts_end(u, parts(pre, 2), 0, t, i) {
                Some(e) => Some(e),
                None => match parts_end(u, parts(pre, 3), 0, t, i) {
                    Some(e) => Some(e),
                    None => match parts_end(u, parts(pre, 4), 0, t, i) {
                        Some(e) => Some(e),
                        None => match parts_end(u, parts(pre, 5), 0, t, i) {
                            Some(e) => Some(e),
                            None => parts_end(u, parts(pre, 6), 0, t, i),
                        },
                    },
                },
            },
        },
{
    lemma_endings(pre, u, t, i);
    lemma_names_apart();
    let v = family(pre);
    assert(v.len() == 7);
    assert forall|k: int| 1 <= k < 7 implies #[trigger] alt_end(u, v[k], t, i) == parts_end(u, parts(pre, k), 0, t, i) by {
        if k == 1 {
        } else if k == 2 {
        } else if k == 3 {
        } else if k == 4 {
        } else if k == 5 {
        } else {
            assert(k == 6);
        }
    }
    assert(match_end(u, v, 7, t, i) is None);
    assert(match_end(u, v, 6, t, i) == alt_end(u, v[6], t, i));
    assert(match_end(u, v, 5, t, i) == match alt_end(u, v[5], t, i) {
        Some(e) => Some(e),
        None => match_end(u, v, 6, t, i),
    });
    assert(match_end(u, v, 4, t, i) == match alt_end(u, v[4], t, i) {
        Some(e) => Some(e),
        None => match_end(u, v, 5, t, i),
    });
    assert(match_end(u, v, 3, t, i) == match alt_end(u, v[3], t, i) {
        Some(e) => Some(e),
        None => match_end(u, v, 4, t, i),
    });
    assert(match_end(u, v, 2, t, i) == match alt_end(u, v[2], t, i) {
        Some(e) => Some(e),
        None => match_end(u, v, 3, t, i),
    });
    assert(match_end(u, v, 1, t, i) == match alt_end(u, v[1], t, i) {
        Some(e) => Some(e),
        None => match_end(u, v, 2, t, i),
    });
}

proof fn lemma_names_apart()
    ensures
        "qwen2"@ != "qwen35"@,
        "qwen2"@ != "llama3"@,
        "qwen2"@ != "llama-bpe"@,
        "qwen35"@ != "llama3"@,
        "qwen35"@ != "llama-bpe"@,
{
    reveal_strlit("qwen2");
    reveal_strlit("qwen35");
    reveal_strlit("llama3");
    reveal_strlit("llama-bpe");
    assert("qwen2"@.len() == 5);
    assert("qwen35"@.len() == 6 && "qwen35"@[0] == 'q');
    assert("llama3"@.len() == 6 && "llama3"@[0] == 'l');
    assert("llama-bpe"@.len() == 9);
}

/// The alternatives of the oldest family in turn.
proof fn lemma_oldest_turn(pre: Seq<char>, u: Kinds, t: Seq<char>, i: int)
    requires
        kinds_ok(u),
        !is_younger(pre),
        0 <= i < t.len(),
        !contracted(pre, u, t, i),
    ensures
        piece_end(pre, u, t, i) == match parts_end(
            u,
            seq![Part::Run(Charset::Blank, Times::Maybe), Part::Run(word_set(pre), Times::Many)],
            0,
            t,
            i,
        ) {
            Some(e) => Some(e),
            None => match parts_end(
                u,
                seq![Part::Run(Charset::Blank, Times::Maybe), Part::Run(Charset::Of(Class::Number), Times::Many)],
                0,
                t,
                i,
            ) {
                Some(e) => Some(e),
                None => match parts_end(
                    u,
                    seq![Part::Run(Charset::Blank, Times::Maybe), Part::Run(other_set(pre), Times::Many)],
                    0,
                    t,
                    i,
                ) {
                    Some(e) => Some(e),
                    None => match parts_end(u, seq![spaces(Times::Many), Part::NotBeforeText], 0, t, i) {
                        Some(e) => Some(e),
                        None => parts_end(u, seq![spaces(Times::Many)], 0, t, i),
                    },
                },
            },
        },
{
    lemma_endings(pre, u, t, i);
    let v = family(pre);
    assert(v == oldest());
    assert(match_end(u, v, 6, t, i) is None);
    assert(match_end(u, v, 5, t, i) == alt_end(u, v[5], t, i));
    assert(match_end(u, v, 4, t, i) == match alt_end(u, v[4], t, i) {
        Some(e) => Some(e),
        None => match_end(u, v, 5, t, i),
    });
    assert(match_end(u, v, 3, t, i) == match alt_end(u, v[3], t, i) {
        Some(e) => Some(e),
        None => match_end(u, v, 4, t, i),
    });
    assert(match_end(u, v, 2, t, i) == match alt_end(u, v[2], t, i) {
        Some(e) => Some(e),
        None => match_end(u, v, 3, t, i),
    });
    assert(match_end(u, v, 1, t, i) == match alt_end(u, v[1], t, i) {
        Some(e) => Some(e),
        None => match_end(u, v, 2, t, i),
    });
}

/// A word is one piece with the character that leads it: any one but a line
/// break, a letter or a number in the younger families, a blank in the oldest.
pub proof fn lemma_word_is_a_piece(pre: Seq<char>, u: Kinds, t: Seq<char>, i: int, w: int, e: int)
    requires
        kinds_ok(u),
        0 <= i < t.len(),
        !contracted(pre, u, t, i),
        w == i || w == i + 1,
        w == i + 1 ==> if is_younger(pre) {
            !is_break(t[i]) && !(u.letter)(t[i]) && !(u.number)(t[i])
        } else {
            t[i] == ' '
        },
        w < e,
        stretch(in_word(pre, u), t, w, e),
    ensures
        piece_end(pre, u, t, i) == Some(e),
{
    lemma_sets(pre, u);
    let s = word_set(pre);
    lemma_run(u, s, in_word(pre, u), t, w, e);
    assert(in_word(pre, u)(t[w]));
    if is_younger(pre) {
        lemma_younger_turn(pre, u, t, i);
        lemma_led(u, lead_set(), s, t, i);
        if w == i {
            // A mark may lead the rest of its own word.
            assert(run(u, s, t, i) == 1 + run(u, s, t, i + 1));
        }
    } else {
        lemma_oldest_turn(pre, u, t, i);
        lemma_led(u, Charset::Blank, s, t, i);
    }
}

/// Numbers stand alone: digit by digit, by three at most in one family, and in one
/// piece, with a blank that leads it, in the oldest.
pub proof fn lemma_number_is_a_piece(pre: Seq<char>, u: Kinds, t: Seq<char>, i: int, w: int, e: int)
    requires
        kinds_ok(u),
        0 <= i < t.len(),
        w == i || (w == i + 1 && !is_younger(pre) && t[i] == ' '),
        w < e,
        stretch(u.number, t, w, e),
    ensures
        piece_end(pre, u, t, i) == Some(
            if pre == "qwen2"@ || pre == "qwen35"@ {
                i + 1
            } else if pre == "llama3"@ || pre == "llama-bpe"@ {
                if e - i > 3 {
                    i + 3
                } else {
                    e
                }
            } else {
                e
            },
        ),
{
    lemma_sets(pre, u);
    let s = Charset::Of(Class::Number);
    lemma_run(u, s, u.number, t, w, e);
    assert((u.number)(t[w]));
    assert(!contracted(pre, u, t, i));
    if is_younger(pre) {
        lemma_younger_turn(pre, u, t, i);
        lemma_led(u, lead_set(), word_set(pre), t, i);
        lemma_no_run(u, word_set(pre), t, i);
        lemma_names_apart();
        lemma_last(
            u,
            parts(pre, 2),
            s,
            if pre == "llama3"@ || pre == "llama-bpe"@ {
                Times::UpToThree
            } else {
                Times::One
            },
            t,
            i,
        );
    } else {
        lemma_oldest_turn(pre, u, t, i);
        lemma_led(u, Charset::Blank, word_set(pre), t, i);
        lemma_no_run(u, word_set(pre), t, i);
        lemma_no_run(u, word_set(pre), t, w);
        lemma_led(u, Charset::Blank, s, t, i);
    }
}

/// What is neither word, number nor white space is one piece, with a blank that
/// leads it and, in the younger families, with the line breaks behind it. There a
/// single such character before a word belongs to the word.
pub proof fn lemma_other_is_a_piece(pre: Seq<char>, u: Kinds, t: Seq<char>, i: int, w: int, e: int, b: int)
    requires
        kinds_ok(u),
        0 <= i < t.len(),
        !contracted(pre, u, t, i),
        w == i || (w == i + 1 && t[i] == ' '),
        w < e,
        stretch(is_other(pre, u), t, w, e),
        is_younger(pre) && w == i && i + 1 < t.len() ==> !in_word(pre, u)(t[i + 1]),
        stretch(|c: char| is_break(c), t, e, b),
    ensures
        piece_end(pre, u, t, i) == Some(
            if is_younger(pre) {
                b
            } else {
                e
            },
        ),
{
    lemma_sets(pre, u);
    let (s, o) = (word_set(pre), other_set(pre));
    lemma_run(u, o, is_other(pre, u), t, w, e);
    assert(is_other(pre, u)(t[w]));
    lemma_no_run(u, s, t, i);
    if is_younger(pre) || w == i + 1 {
        lemma_no_run(u, s, t, i + 1);
    }
    if is_younger(pre) {
        lemma_younger_turn(pre, u, t, i);
        lemma_led(u, lead_set(), s, t, i);
        lemma_last(u, parts(pre, 2), Charset::Of(Class::Number), parts(pre, 2)[0]->Run_1, t, i);
        lemma_no_run(u, Charset::Of(Class::Number), t, i);
        lemma_led_and_closed(u, o, breaks(), t, i);
        lemma_breaks(u);
        lemma_run(u, breaks(), |c: char| is_break(c), t, e, b);
    } else {
        lemma_oldest_turn(pre, u, t, i);
        lemma_led(u, Charset::Blank, s, t, i);
        lemma_led(u, Charset::Blank, Charset::Of(Class::Number), t, i);
        lemma_no_run(u, Charset::Of(Class::Number), t, i);
        if w == i + 1 {
            lemma_no_run(u, Charset::Of(Class::Number), t, i + 1);
        }
        lemma_led(u, Charset::Blank, o, t, i);
    }
}

/// White space: up to its last line break in the younger families, where it has
/// one; else all of it at the end of the text, and all but the last character
/// before anything else. A single character that leads nothing stands alone.
pub proof fn lemma_space_is_a_piece(pre: Seq<char>, u: Kinds, t: Seq<char>, i: int, e: int, last: Option<int>)
    requires
        kinds_ok(u),
        i < e,
        stretch(u.space, t, i, e),
        match last {
            Some(b) => i <= b < e && is_break(t[b]) && forall|x: int| b < x < e ==> !is_break(#[trigger] t[x]),
            None => forall|x: int| i <= x < e ==> !is_break(#[trigger] t[x]),
        },
        e == i + 1 && e < t.len() ==> if is_younger(pre) {
            (in_word(pre, u)(t[e]) ==> is_break(t[i])) && (is_other(pre, u)(t[e]) ==> t[i] != ' ')
        } else {
            t[i] != ' '
        },
    ensures
        piece_end(pre, u, t, i) == Some(
            if is_younger(pre) && last is Some {
                last->Some_0 + 1
            } else if e == t.len() || e == i + 1 {
                e
            } else {
                e - 1
            },
        ),
{
    lemma_sets(pre, u);
    let (s, o) = (word_set(pre), other_set(pre));
    assert((u.space)(t[i]));
    if i + 1 < e {
        assert((u.space)(t[i + 1]));
    }
    assert(!contracted(pre, u, t, i));
    lemma_no_run(u, s, t, i);
    lemma_no_run(u, o, t, i);
    lemma_no_run(u, Charset::Of(Class::Number), t, i);
    lemma_space_before_text(u, t, i, e);
    if is_younger(pre) {
        lemma_younger_turn(pre, u, t, i);
        if !is_break(t[i]) {
            lemma_no_run(u, s, t, i + 1);
        }
        if t[i] == ' ' {
            lemma_no_run(u, o, t, i + 1);
        }
        lemma_led(u, lead_set(), s, t, i);
        lemma_last(u, parts(pre, 2), Charset::Of(Class::Number), parts(pre, 2)[0]->Run_1, t, i);
        lemma_led_and_closed(u, o, breaks(), t, i);
        lemma_run(u, Charset::Of(Class::Space), u.space, t, i, e);
        lemma_up_to_break(u, t, i, e, (e - i) as nat, last);
        assert(parts_end(u, parts(pre, 4), 0, t, i) == giving_back(
            u,
            parts(pre, 4),
            0,
            Times::Any,
            t,
            i,
            (e - i) as nat,
        ));
    } else {
        lemma_oldest_turn(pre, u, t, i);
        if t[i] == ' ' {
            lemma_no_run(u, s, t, i + 1);
            lemma_no_run(u, o, t, i + 1);
            lemma_no_run(u, Charset::Of(Class::Number), t, i + 1);
        }
        lemma_led(u, Charset::Blank, s, t, i);
        lemma_led(u, Charset::Blank, Charset::Of(Class::Number), t, i);
        lemma_led(u, Charset::Blank, o, t, i);
    }
}

} // verus!
