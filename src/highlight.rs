use vstd::prelude::*;

use crate::find::{matches_at, matches_here};
use crate::language::{is_word, lookup, Color, Language, Rules};
use crate::parse::{slice_chars, to_chars, to_string};
use crate::text::chars_of;

verus! {

/// Index of the first occurrence of `item` in `s` at or after `i`.
pub open spec fn first_match_from(s: Seq<char>, item: Seq<char>, i: int) -> Option<int>
    decreases s.len() + 1 - i,
{
    if i < 0 || i > s.len() {
        None
    } else if matches_at(s, item, i) {
        Some(i)
    } else {
        first_match_from(s, item, i + 1)
    }
}

/// `s` cut at every occurrence of `item`, searching from the left; each
/// occurrence stays as a piece of its own and no piece is empty. An empty
/// `item` leaves `s` whole.
pub open spec fn pieces_of(s: Seq<char>, item: Seq<char>) -> Seq<Seq<char>>
    decreases s.len(),
{
    let rest_piece = if s.len() > 0 {
        seq![s]
    } else {
        Seq::<Seq<char>>::empty()
    };
    if item.len() == 0 {
        rest_piece
    } else {
        match first_match_from(s, item, 0) {
            None => rest_piece,
            Some(i) => if 0 <= i && i + item.len() <= s.len() {
                (if i > 0 {
                    seq![s.take(i)]
                } else {
                    Seq::<Seq<char>>::empty()
                }) + seq![item] + pieces_of(s.skip(i + item.len()), item)
            } else {
                rest_piece
            },
        }
    }
}

/// Every string of `input` cut at the occurrences of `item`, in order.
pub open spec fn pop_off_spec(input: Seq<Seq<char>>, item: Seq<char>) -> Seq<Seq<char>>
    decreases input.len(),
{
    if input.len() == 0 {
        Seq::empty()
    } else {
        pop_off_spec(input.drop_last(), item) + pieces_of(input.last(), item)
    }
}

/// `input` cut at the occurrences of each of `items` in turn.
pub open spec fn pop_off_these_spec(input: Seq<Seq<char>>, items: Seq<Seq<char>>) -> Seq<
    Seq<char>,
>
    decreases items.len(),
{
    if items.len() == 0 {
        input
    } else {
        pop_off_spec(pop_off_these_spec(input, items.drop_last()), items.last())
    }
}

/// The strings that cut a line into words, in the order they are applied.
pub open spec fn delimiters() -> Seq<Seq<char>> {
    seq![
        " "@,
        "("@,
        ")"@,
        "{"@,
        "}"@,
        "."@,
        ";"@,
        ":"@,
        "\""@,
        "'"@,
        "["@,
        "]"@,
        "//"@,
        "/*"@,
        "*/"@,
        "<?-"@,
        "->"@,
        "#"@,
        ","@,
    ]
}

/// The words of a line: it is cut at every delimiter, which stay as words
/// of their own.
pub open spec fn split_up_spec(line: Seq<char>) -> Seq<Seq<char>> {
    pop_off_these_spec(seq![line], delimiters())
}

/// The strings' characters.
pub open spec fn strs(v: Seq<String>) -> Seq<Seq<char>> {
    v.map_values(|x: String| x@)
}

fn first_match(s: &Vec<char>, item: &Vec<char>) -> (r: Option<usize>)
    requires
        s@.len() <= isize::MAX,
    ensures
        match first_match_from(s@, item@, 0) {
            Some(i) => r == Some(i as usize) && 0 <= i <= s@.len(),
            None => r is None,
        },
{
    let mut i: usize = 0;
    while i <= s.len()
        invariant
            i <= s@.len() + 1,
            s@.len() < usize::MAX,
            first_match_from(s@, item@, i as int) == first_match_from(s@, item@, 0),
        decreases s@.len() + 1 - i,
    {
        if matches_here(s, item, i) {
            return Some(i);
        }
        i = i + 1;
    }
    None
}

/// Appends the pieces of `s` cut at `item` to `out`.
fn push_pieces(s: &Vec<char>, item: &Vec<char>, out: &mut Vec<String>)
    requires
        s@.len() <= isize::MAX,
    ensures
        strs(final(out)@) == strs(old(out)@) + pieces_of(s@, item@),
    decreases s@.len(),
{
    let ghost start = strs(out@);
    if item.len() == 0 {
        if s.len() > 0 {
            out.push(to_string(s));
        }
        proof {
            assert(strs(out@) =~= start + pieces_of(s@, item@));
        }
        return ;
    }
    match first_match(s, item) {
        None => {
            if s.len() > 0 {
                out.push(to_string(s));
            }
            proof {
                assert(strs(out@) =~= start + pieces_of(s@, item@));
            }
        },
        Some(i) => {
            if item.len() <= s.len() - i {
                if i > 0 {
                    out.push(to_string(&slice_chars(s, 0, i)));
                }
                out.push(to_string(item));
                let ghost mid = strs(out@);
                proof {
                    assert(s@.subrange(0, i as int) =~= s@.take(i as int));
                    assert(mid =~= start + (if i > 0 {
                        seq![s@.take(i as int)]
                    } else {
                        Seq::<Seq<char>>::empty()
                    }) + seq![item@]);
                }
                let rest = slice_chars(s, i + item.len(), s.len());
                proof {
                    assert(rest@ =~= s@.skip(i + item@.len()));
                }
                push_pieces(&rest, item, out);
                proof {
                    assert(strs(out@) =~= start + pieces_of(s@, item@));
                }
            } else {
                if s.len() > 0 {
                    out.push(to_string(s));
                }
                proof {
                    assert(strs(out@) =~= start + pieces_of(s@, item@));
                }
            }
        },
    }
}

/// Every string of `input` cut at the occurrences of `item`, each occurrence
/// kept as a string of its own, no string empty.
fn pop_off(input: Vec<String>, item: &str) -> (r: Vec<String>)
    ensures
        strs(r@) == pop_off_spec(strs(input@), item@),
{
    let item_chars = chars_of(item);
    let mut output: Vec<String> = Vec::new();
    let mut i: usize = 0;
    while i < input.len()
        invariant
            i <= input@.len(),
            item_chars@ == item@,
            strs(output@) == pop_off_spec(strs(input@).take(i as int), item@),
        decreases input.len() - i,
    {
        let s = to_chars(&input[i]);
        proof {
            assert(strs(input@).take(i + 1).drop_last() =~= strs(input@).take(i as int));
            assert(strs(input@).take(i + 1).last() == s@);
        }
        push_pieces(&s, &item_chars, &mut output);
        i = i + 1;
    }
    assert(strs(input@).take(input@.len() as int) =~= strs(input@));
    output
}

/// `input` cut at the occurrences of each of `items` in turn.
fn pop_off_these(input: Vec<String>, items: Vec<&str>) -> (r: Vec<String>)
    ensures
        strs(r@) == pop_off_these_spec(strs(input@), items@.map_values(|x: &str| x@)),
{
    let mut input = input;
    let ghost first = strs(input@);
    let ghost all = items@.map_values(|x: &str| x@);
    let mut i: usize = 0;
    while i < items.len()
        invariant
            i <= items@.len(),
            all == items@.map_values(|x: &str| x@),
            strs(input@) == pop_off_these_spec(first, all.take(i as int)),
        decreases items.len() - i,
    {
        proof {
            assert(all.take(i + 1).drop_last() =~= all.take(i as int));
        }
        input = pop_off(input, items[i]);
        i = i + 1;
    }
    assert(all.take(items@.len() as int) =~= all);
    input
}

/// The words of a line, cut at spaces, brackets, punctuation, quotes and
/// comment markers, which stay as words of their own.
pub fn split_up(input: String) -> (r: Vec<String>)
    ensures
        strs(r@) == split_up_spec(input@),
{
    let mut items: Vec<&str> = Vec::new();
    items.push(" ");
    items.push("(");
    items.push(")");
    items.push("{");
    items.push("}");
    items.push(".");
    items.push(";");
    items.push(":");
    items.push("\"");
    items.push("'");
    items.push("[");
    items.push("]");
    items.push("//");
    items.push("/*");
    items.push("*/");
    items.push("<?-");
    items.push("->");
    items.push("#");
    items.push(",");
    assert(items@.map_values(|x: &str| x@) =~= delimiters());
    let mut v: Vec<String> = Vec::new();
    v.push(input);
    assert(strs(v@) =~= seq![v@[0]@]);
    pop_off_these(v, items)
}


/// Whether `c` is numeric in Unicode's sense, as std's `char::is_numeric` tells.
pub uninterp spec fn numeric_char(c: char) -> bool;

/// Whether `c` is upper case in Unicode's sense, as std's `char::is_uppercase` tells.
pub uninterp spec fn uppercase_char(c: char) -> bool;

/// Relies on `char::is_numeric`: the decimal digits are numeric.
#[verifier::external_body]
fn is_numeric(c: char) -> (r: bool)
    ensures
        r == numeric_char(c),
        '0' <= c <= '9' ==> r,
{
    c.is_numeric()
}

/// Relies on `char::is_uppercase`: the letters `A` to `Z` are upper case,
/// `a` to `z` are not.
#[verifier::external_body]
fn is_uppercase(c: char) -> (r: bool)
    ensures
        r == uppercase_char(c),
        'A' <= c <= 'Z' ==> r,
        'a' <= c <= 'z' ==> !r,
{
    c.is_uppercase()
}

/// The colors that brackets cycle through by depth.
pub open spec fn palette() -> Seq<Color> {
    seq![Color::Yellow, Color::Red, Color::Black, Color::Green, Color::Blue, Color::Magenta]
}

/// Color of comments.
pub open spec fn comment_color() -> Color {
    Color::Rgb { r: 0, g: 255, b: 0 }
}

/// Color of a word followed by an opening parenthesis.
pub open spec fn call_color() -> Color {
    Color::Rgb { r: 255, g: 150, b: 0 }
}

/// Where the colorizer stands: inside double or single quotes, and how deep
/// in parentheses and braces.
pub struct Depths {
    pub in_double: bool,
    pub in_single: bool,
    pub parens: usize,
    pub braces: usize,
}

pub open spec fn no_depths() -> Depths {
    Depths { in_double: false, in_single: false, parens: 0, braces: 0 }
}

pub open spec fn deeper(n: usize) -> usize {
    if n < usize::MAX {
        (n + 1) as usize
    } else {
        n
    }
}

pub open spec fn shallower(n: usize) -> usize {
    if n > 0 {
        (n - 1) as usize
    } else {
        0
    }
}

/// The color of `word` and where the colorizer stands after it. Quotes
/// toggle, and all inside them takes the text color; an opening bracket
/// takes the palette color of its depth and goes one deeper, a closing one
/// goes one back and takes the color of that depth; then the keyword groups
/// decide; then a word starting with a numeric or an upper case character
/// takes the numbers or capitals color.
pub open spec fn word_color(d: Depths, lang: Rules, word: Seq<char>) -> (Depths, Color) {
    if word == "\""@ && !d.in_single {
        (Depths { in_double: !d.in_double, ..d }, lang.text)
    } else if word == "'"@ && !d.in_double {
        (Depths { in_single: !d.in_single, ..d }, lang.text)
    } else if d.in_double || d.in_single {
        (d, lang.text)
    } else if word == "("@ {
        (Depths { parens: deeper(d.parens), ..d }, palette()[(d.parens % 6) as int])
    } else if word == ")"@ {
        (Depths { parens: shallower(d.parens), ..d }, palette()[(shallower(d.parens) % 6) as int])
    } else if word == "{"@ {
        (Depths { braces: deeper(d.braces), ..d }, palette()[(d.braces % 6) as int])
    } else if word == "}"@ {
        (Depths { braces: shallower(d.braces), ..d }, palette()[(shallower(d.braces) % 6) as int])
    } else {
        match lookup(lang.groups, word) {
            Some(c) => (d, c),
            None => if word.len() > 0 && numeric_char(word[0]) {
                (d, lang.numbers)
            } else if word.len() > 0 && uppercase_char(word[0]) {
                (d, lang.capitals)
            } else {
                (d, Color::Reset)
            },
        }
    }
}

/// Background of `w`: red where it is the word searched for.
pub open spec fn background_spec(search: Option<Seq<char>>, w: Seq<char>) -> Color {
    match search {
        Some(s) => if w == s {
            Color::Red
        } else {
            Color::Reset
        },
        None => Color::Reset,
    }
}

/// A piece of text with its colors.
pub struct StyledWord {
    pub text: String,
    pub foreground: Color,
    pub background: Color,
}

pub open spec fn styled_view(s: StyledWord) -> (Seq<char>, Color, Color) {
    (s.text@, s.foreground, s.background)
}

pub open spec fn styled_views(v: Seq<StyledWord>) -> Seq<(Seq<char>, Color, Color)> {
    v.map_values(|s: StyledWord| styled_view(s))
}

/// The pieces `word` is printed in: cut around the word searched for, if
/// any, each with the word's color and its own background.
pub open spec fn word_pieces(search: Option<Seq<char>>, word: Seq<char>, fg: Color) -> Seq<
    (Seq<char>, Color, Color),
> {
    match search {
        None => seq![(word, fg, background_spec(search, word))],
        Some(s) => pieces_of(word, s).map_values(
            |p: Seq<char>| (p, fg, background_spec(search, p)),
        ),
    }
}

/// The state of a coloring pass between two words.
pub struct PassState {
    pub d: Depths,
    pub mlc: bool,
    pub comment: bool,
    pub out: Seq<(Seq<char>, Color, Color)>,
}

/// One word of a line. The comment token starts a comment to the end of the
/// line, the start of a multi-line comment one that lasts to its end token;
/// in a comment all is drawn in the comment color, and a word before an
/// opening parenthesis in the call color. Highlighting turned off draws all
/// without color.
pub open spec fn word_step(
    st: PassState,
    lang: Rules,
    disabled: bool,
    search: Option<Seq<char>>,
    words: Seq<Seq<char>>,
    i: int,
) -> PassState {
    let w = words[i];
    let comment = st.comment || w == lang.comment;
    let mlc = if w != lang.comment && w == lang.ml_start {
        true
    } else {
        st.mlc
    };
    let (d, fg) = if disabled {
        (st.d, Color::Reset)
    } else if comment || mlc {
        (st.d, comment_color())
    } else if i + 1 < words.len() && w != "("@ && words[i + 1] == "("@ {
        (st.d, call_color())
    } else {
        word_color(st.d, lang, w)
    };
    PassState {
        d,
        mlc: if w == lang.ml_end {
            false
        } else {
            mlc
        },
        comment,
        out: st.out + word_pieces(search, w, fg),
    }
}

/// The first `k` words of a line, in turn.
pub open spec fn words_pass(
    st: PassState,
    lang: Rules,
    disabled: bool,
    search: Option<Seq<char>>,
    words: Seq<Seq<char>>,
    k: int,
) -> PassState
    decreases k,
{
    if k <= 0 {
        st
    } else {
        word_step(words_pass(st, lang, disabled, search, words, k - 1), lang, disabled, search, words, k - 1)
    }
}

/// `s` cut at every `\r\n`, which goes; there is one piece more than there
/// are cuts.
pub open spec fn split_crlf(s: Seq<char>) -> Seq<Seq<char>>
    decreases s.len(),
{
    if s.len() == 0 {
        seq![Seq::<char>::empty()]
    } else {
        let prev = split_crlf(s.drop_last());
        let last = prev.last();
        if s.last() == '\n' && last.len() > 0 && last.last() == '\r' {
            prev.update(prev.len() - 1, last.drop_last()).push(Seq::<char>::empty())
        } else {
            prev.update(prev.len() - 1, last.push(s.last()))
        }
    }
}

/// The first `k` lines of a pass: the multi-line comment and the depths go
/// on from line to line, and a line break follows every line but the last.
pub open spec fn lines_pass(
    lang: Rules,
    disabled: bool,
    search: Option<Seq<char>>,
    lines: Seq<Seq<char>>,
    k: int,
) -> PassState
    decreases k,
{
    if k <= 0 {
        PassState { d: no_depths(), mlc: false, comment: false, out: Seq::empty() }
    } else {
        let prev = lines_pass(lang, disabled, search, lines, k - 1);
        let words = split_up_spec(lines[k - 1]);
        let st = words_pass(
            PassState { comment: false, ..prev },
            lang,
            disabled,
            search,
            words,
            words.len() as int,
        );
        if k < lines.len() {
            PassState { out: st.out.push(("\r\n"@, Color::Reset, Color::Reset)), ..st }
        } else {
            st
        }
    }
}

fn to_chars_of_str(s: &str) -> (r: Vec<char>)
    ensures
        r@ == s@,
{
    chars_of(s)
}

/// `s` cut at every `\r\n`.
fn split_crlf_exec(s: &str) -> (r: Vec<String>)
    ensures
        strs(r@) == split_crlf(s@),
{
    let chars = chars_of(s);
    let mut result: Vec<String> = Vec::new();
    let mut current: Vec<char> = Vec::new();
    let mut i: usize = 0;
    while i < chars.len()
        invariant
            i <= chars@.len(),
            chars@ == s@,
            strs(result@).push(current@) == split_crlf(chars@.take(i as int)),
        decreases chars.len() - i,
    {
        let ghost before = strs(result@);
        proof {
            assert(chars@.take(i + 1).drop_last() =~= chars@.take(i as int));
        }
        let c = chars[i];
        if c == '\n' && current.len() > 0 && current[current.len() - 1] == '\r' {
            current.pop();
            result.push(to_string(&current));
            current = Vec::new();
            proof {
                assert(strs(result@).push(current@) =~= split_crlf(chars@.take(i + 1)));
            }
        } else {
            current.push(c);
            proof {
                assert(strs(result@).push(current@) =~= split_crlf(chars@.take(i + 1)));
            }
        }
        i = i + 1;
    }
    assert(chars@.take(chars.len() as int) =~= chars@);
    let ghost before = strs(result@);
    result.push(to_string(&current));
    assert(strs(result@) =~= before.push(current@));
    result
}

/// The stateful colorizer of the text on screen.
pub struct ColorWord {
    pub word: Option<String>,
    pub disabled: bool,
    pub language: Language,
    pub in_text_2: bool,
    pub in_text_1: bool,
    pub base_colors: Vec<Color>,
    pub parenthesis: usize,
    pub brackets: usize,
}

impl ColorWord {
    pub open spec fn wf(&self) -> bool {
        self.base_colors@ == palette()
    }

    pub open spec fn depths(&self) -> Depths {
        Depths {
            in_double: self.in_text_2,
            in_single: self.in_text_1,
            parens: self.parenthesis,
            braces: self.brackets,
        }
    }

    pub open spec fn search(&self) -> Option<Seq<char>> {
        match self.word {
            Some(w) => Some(w@),
            None => None,
        }
    }

    /// A colorizer for `language`, highlighting `word` where it is given.
    pub fn new(word: Option<String>, language: Language) -> (r: Self)
        ensures
            r.wf(),
            r.word == word,
            r.language == language,
            !r.disabled,
            r.depths() == no_depths(),
    {
        let mut base_colors: Vec<Color> = Vec::new();
        base_colors.push(Color::Yellow);
        base_colors.push(Color::Red);
        base_colors.push(Color::Black);
        base_colors.push(Color::Green);
        base_colors.push(Color::Blue);
        base_colors.push(Color::Magenta);
        assert(base_colors@ =~= palette());
        Self {
            word,
            disabled: false,
            language,
            in_text_2: false,
            in_text_1: false,
            base_colors,
            parenthesis: 0,
            brackets: 0,
        }
    }

    /// Turns highlighting off, or back on.
    pub fn toggle_status(&mut self)
        ensures
            final(self).disabled == !old(self).disabled,
            final(self).word == old(self).word,
            final(self).language == old(self).language,
            final(self).base_colors == old(self).base_colors,
            final(self).depths() == old(self).depths(),
    {
        self.disabled = !self.disabled;
    }

    /// Sets the word to highlight, or none.
    pub fn set_find(&mut self, find: Option<String>)
        ensures
            final(self).word == find,
            final(self).disabled == old(self).disabled,
            final(self).language == old(self).language,
            final(self).base_colors == old(self).base_colors,
            final(self).depths() == old(self).depths(),
    {
        self.word = find;
    }

    /// The background of `c`: red where it is the word searched for.
    pub fn get_background_color(&self, c: &str) -> (r: Color)
        ensures
            r == background_spec(self.search(), c@),
    {
        match &self.word {
            Some(w) => {
                let cc = chars_of(c);
                if is_word(&cc, w.as_str()) {
                    Color::Red
                } else {
                    Color::Reset
                }
            },
            None => Color::Reset,
        }
    }

    /// The color of `word`, moving through quotes and brackets.
    pub fn get_color(&mut self, word: &str) -> (r: Color)
        requires
            old(self).wf(),
        ensures
            (final(self).depths(), r) == word_color(old(self).depths(), old(self).language.view(), word@),
            final(self).wf(),
            final(self).word == old(self).word,
            final(self).disabled == old(self).disabled,
            final(self).language == old(self).language,
    {
        let w = chars_of(word);
        if is_word(&w, "\"") && !self.in_text_1 {
            self.in_text_2 = !self.in_text_2;
            return self.language.text_color;
        }
        if is_word(&w, "'") && !self.in_text_2 {
            self.in_text_1 = !self.in_text_1;
            return self.language.text_color;
        }
        if self.in_text_2 || self.in_text_1 {
            return self.language.text_color;
        }
        if is_word(&w, "(") {
            let output = self.base_colors[self.parenthesis % 6];
            self.parenthesis = self.parenthesis.saturating_add(1);
            return output;
        }
        if is_word(&w, ")") {
            if self.parenthesis > 0 {
                self.parenthesis = self.parenthesis - 1;
            }
            return self.base_colors[self.parenthesis % 6];
        }
        if is_word(&w, "{") {
            let output = self.base_colors[self.brackets % 6];
            self.brackets = self.brackets.saturating_add(1);
            return output;
        }
        if is_word(&w, "}") {
            if self.brackets > 0 {
                self.brackets = self.brackets - 1;
            }
            return self.base_colors[self.brackets % 6];
        }
        match self.language.get_color(&word.to_owned()) {
            Some(c) => {
                return c;
            },
            None => {},
        }
        if w.len() > 0 && is_numeric(w[0]) {
            return self.language.numbers_color;
        }
        if w.len() > 0 && is_uppercase(w[0]) {
            return self.language.capitals_color;
        }
        Color::Reset
    }

    /// Appends the pieces of one word, in `fg`, to `out`.
    fn push_word(&self, w: &String, fg: Color, out: &mut Vec<StyledWord>)
        ensures
            styled_views(final(out)@) == styled_views(old(out)@) + word_pieces(self.search(), w@, fg),
    {
        let ghost start = styled_views(out@);
        match &self.word {
            None => {
                let bg = self.get_background_color(w.as_str());
                out.push(StyledWord { text: w.clone(), foreground: fg, background: bg });
                proof {
                    assert(styled_views(out@) =~= start + word_pieces(self.search(), w@, fg));
                }
            },
            Some(s) => {
                let mut one: Vec<String> = Vec::new();
                one.push(w.clone());
                proof {
                    assert(strs(one@).drop_last() =~= Seq::<Seq<char>>::empty());
                    assert(strs(one@).last() == w@);
                }
                let pieces = pop_off(one, s.as_str());
                let ghost ps = pieces_of(w@, s@);
                proof {
                    let x = strs(one@);
                    assert(x.drop_last() =~= Seq::<Seq<char>>::empty());
                    assert(pop_off_spec(x.drop_last(), s@) == Seq::<Seq<char>>::empty());
                    assert(x.last() == w@);
                    assert(pop_off_spec(x, s@) == pop_off_spec(x.drop_last(), s@) + pieces_of(
                        x.last(),
                        s@,
                    ));
                    assert(pop_off_spec(x, s@) =~= pieces_of(w@, s@));
                }
                let mut j: usize = 0;
                while j < pieces.len()
                    invariant
                        j <= pieces@.len(),
                        strs(pieces@) == ps,
                        self.search() == Some(s@),
                        styled_views(out@) == start + ps.take(j as int).map_values(
                            |p: Seq<char>| (p, fg, background_spec(self.search(), p)),
                        ),
                    decreases pieces.len() - j,
                {
                    let bg = self.get_background_color(pieces[j].as_str());
                    let ghost prev = out@;
                    out.push(StyledWord { text: pieces[j].clone(), foreground: fg, background: bg });
                    proof {
                        assert(styled_views(out@) =~= styled_views(prev).push(
                            (pieces@[j as int]@, fg, bg),
                        ));
                        assert(ps[j as int] == pieces@[j as int]@);
                        assert(ps.take(j + 1).map_values(
                            |p: Seq<char>| (p, fg, background_spec(self.search(), p)),
                        ) =~= ps.take(j as int).map_values(
                            |p: Seq<char>| (p, fg, background_spec(self.search(), p)),
                        ).push((ps[j as int], fg, background_spec(self.search(), ps[j as int]))));
                        assert(styled_views(out@) =~= start + ps.take(j + 1).map_values(
                            |p: Seq<char>| (p, fg, background_spec(self.search(), p)),
                        ));
                    }
                    j = j + 1;
                }
                proof {
                    assert(ps.take(pieces@.len() as int) =~= ps);
                }
            },
        }
    }

    /// Colors word `i` of a line and appends its pieces to `out`.
    fn color_word(
        &mut self,
        words: &Vec<String>,
        i: usize,
        comment: &mut bool,
        mlc: &mut bool,
        out: &mut Vec<StyledWord>,
    )
        requires
            old(self).wf(),
            i < words@.len(),
        ensures
            final(self).wf(),
            final(self).word == old(self).word,
            final(self).disabled == old(self).disabled,
            final(self).language == old(self).language,
            ({
                let st = word_step(
                    PassState {
                        d: old(self).depths(),
                        mlc: *old(mlc),
                        comment: *old(comment),
                        out: styled_views(old(out)@),
                    },
                    old(self).language.view(),
                    old(self).disabled,
                    old(self).search(),
                    strs(words@),
                    i as int,
                );
                &&& st.d == final(self).depths()
                &&& st.mlc == *final(mlc)
                &&& st.comment == *final(comment)
                &&& st.out == styled_views(final(out)@)
            }),
    {
        let w = &words[i];
        let wc = to_chars(w);
        if *w == self.language.comment_keyword {
            *comment = true;
        } else if *w == self.language.ml_comment_start_keyword {
            *mlc = true;
        }
        let fg = if self.disabled {
            Color::Reset
        } else if *comment || *mlc {
            Color::Rgb { r: 0, g: 255, b: 0 }
        } else if i < words.len() - 1 && !is_word(&wc, "(") && is_word(
            &to_chars(&words[i + 1]),
            "(",
        ) {
            Color::Rgb { r: 255, g: 150, b: 0 }
        } else {
            self.get_color(w.as_str())
        };
        self.push_word(w, fg, out);
        if *w == self.language.ml_comment_end_keyword {
            *mlc = false;
        }
    }

    /// Colors `text`, lines separated by `\r\n`, into pieces to print in
    /// order. Quotes and bracket depths start afresh with each pass.
    pub fn coloring(&mut self, text: &str) -> (r: Vec<StyledWord>)
        requires
            old(self).wf(),
        ensures
            final(self).wf(),
            final(self).word == old(self).word,
            final(self).disabled == old(self).disabled,
            final(self).language == old(self).language,
            ({
                let lines = split_crlf(text@);
                let st = lines_pass(
                    old(self).language.view(),
                    old(self).disabled,
                    old(self).search(),
                    lines,
                    lines.len() as int,
                );
                &&& styled_views(r@) == st.out
                &&& final(self).depths() == st.d
            }),
    {
        self.in_text_1 = false;
        self.in_text_2 = false;
        self.parenthesis = 0;
        self.brackets = 0;
        let lines = split_crlf_exec(text);
        let ghost ls = split_crlf(text@);
        let ghost lang = self.language.view();
        let mut out: Vec<StyledWord> = Vec::new();
        let mut mlc = false;
        let mut li: usize = 0;
        while li < lines.len()
            invariant
                self.wf(),
                self.word == old(self).word,
                self.disabled == old(self).disabled,
                self.language == old(self).language,
                lang == self.language.view(),
                strs(lines@) == ls,
                li <= lines@.len(),
                ({
                    let st = lines_pass(lang, self.disabled, self.search(), ls, li as int);
                    &&& st.out == styled_views(out@)
                    &&& st.d == self.depths()
                    &&& st.mlc == mlc
                }),
            decreases lines.len() - li,
        {
            let words = split_up(lines[li].clone());
            let ghost ws = strs(words@);
            proof {
                assert(ws == split_up_spec(ls[li as int]));
            }
            let mut comment = false;
            let ghost st0 = PassState {
                d: self.depths(),
                mlc: mlc,
                comment: false,
                out: styled_views(out@),
            };
            let mut i: usize = 0;
            while i < words.len()
                invariant
                    self.wf(),
                    self.word == old(self).word,
                    self.disabled == old(self).disabled,
                    self.language == old(self).language,
                    lang == self.language.view(),
                    ws == strs(words@),
                    i <= words@.len(),
                    ({
                        let st = words_pass(st0, lang, self.disabled, self.search(), ws, i as int);
                        &&& st.out == styled_views(out@)
                        &&& st.d == self.depths()
                        &&& st.mlc == mlc
                        &&& st.comment == comment
                    }),
                decreases words.len() - i,
            {
                self.color_word(&words, i, &mut comment, &mut mlc, &mut out);
                i = i + 1;
            }
            if li + 1 < lines.len() {
                let ghost before = out@;
                out.push(
                    StyledWord {
                        text: to_string(&to_chars_of_str("\r\n")),
                        foreground: Color::Reset,
                        background: Color::Reset,
                    },
                );
                proof {
                    assert(styled_views(out@) =~= styled_views(before).push(
                        ("\r\n"@, Color::Reset, Color::Reset),
                    ));
                }
            }
            li = li + 1;
        }
        out
    }
}


/// Outside quotes, a word of a keyword group that is no quote or bracket
/// takes the group's color; inside double quotes every word but the closing
/// quote takes the text color, and the colorizer stays inside them.
pub proof fn lemma_keyword_and_quote_colors(d: Depths, lang: Rules, word: Seq<char>, c: Color)
    requires
        word != "\""@,
        word != "'"@,
        word != "("@,
        word != ")"@,
        word != "{"@,
        word != "}"@,
    ensures
        !d.in_double && !d.in_single && lookup(lang.groups, word) == Some(c) ==> word_color(
            d,
            lang,
            word,
        ) == (d, c),
        d.in_double ==> word_color(d, lang, word) == (d, lang.text),
{
}

/// The pieces with their text and background only.
pub open spec fn without_foreground(out: Seq<(Seq<char>, Color, Color)>) -> Seq<(Seq<char>, Color)> {
    out.map_values(|p: (Seq<char>, Color, Color)| (p.0, p.2))
}

/// Every piece is drawn in the default foreground.
pub open spec fn all_reset(out: Seq<(Seq<char>, Color, Color)>) -> bool {
    forall|i: int| 0 <= i < out.len() ==> (#[trigger] out[i]).1 == Color::Reset
}

proof fn lemma_pieces_same_but_color(search: Option<Seq<char>>, w: Seq<char>, fg: Color)
    ensures
        without_foreground(word_pieces(search, w, fg)) == without_foreground(
            word_pieces(search, w, Color::Reset),
        ),
        all_reset(word_pieces(search, w, Color::Reset)),
{
    assert(without_foreground(word_pieces(search, w, fg)) =~= without_foreground(
        word_pieces(search, w, Color::Reset),
    ));
}

proof fn lemma_append_parts(
    a: Seq<(Seq<char>, Color, Color)>,
    b: Seq<(Seq<char>, Color, Color)>,
    c: Seq<(Seq<char>, Color, Color)>,
    d: Seq<(Seq<char>, Color, Color)>,
)
    requires
        without_foreground(a) == without_foreground(c),
        without_foreground(b) == without_foreground(d),
        all_reset(c),
        all_reset(d),
    ensures
        without_foreground(a + b) == without_foreground(c + d),
        all_reset(c + d),
{
    assert(without_foreground(a + b) =~= without_foreground(a) + without_foreground(b));
    assert(without_foreground(c + d) =~= without_foreground(c) + without_foreground(d));
    assert forall|i: int| 0 <= i < (c + d).len() implies (#[trigger] (c + d)[i]).1 == Color::Reset by {
        if i < c.len() {
            assert((c + d)[i] == c[i]);
        } else {
            assert((c + d)[i] == d[i - c.len()]);
        }
    }
}

proof fn lemma_words_pass_off(
    on: PassState,
    off: PassState,
    lang: Rules,
    search: Option<Seq<char>>,
    words: Seq<Seq<char>>,
    k: int,
)
    requires
        on.mlc == off.mlc,
        on.comment == off.comment,
        without_foreground(on.out) == without_foreground(off.out),
        all_reset(off.out),
        0 <= k <= words.len(),
    ensures
        ({
            let a = words_pass(on, lang, false, search, words, k);
            let b = words_pass(off, lang, true, search, words, k);
            &&& a.mlc == b.mlc
            &&& a.comment == b.comment
            &&& without_foreground(a.out) == without_foreground(b.out)
            &&& all_reset(b.out)
        }),
    decreases k,
{
    if k > 0 {
        lemma_words_pass_off(on, off, lang, search, words, k - 1);
        let a = words_pass(on, lang, false, search, words, k - 1);
        let b = words_pass(off, lang, true, search, words, k - 1);
        let w = words[k - 1];
        let a2 = word_step(a, lang, false, search, words, k - 1);
        lemma_pieces_same_but_color(search, w, Color::Reset);
        let fg = choose|fg: Color| a2.out == a.out + word_pieces(search, w, fg);
        lemma_pieces_same_but_color(search, w, fg);
        lemma_append_parts(a.out, word_pieces(search, w, fg), b.out, word_pieces(search, w, Color::Reset));
    }
}

/// With highlighting turned off every piece is drawn in the default
/// foreground, and the pieces and their backgrounds, where the word searched
/// for is marked, are those drawn with it on.
pub proof fn lemma_toggle_keeps_background(
    lang: Rules,
    search: Option<Seq<char>>,
    lines: Seq<Seq<char>>,
    k: int,
)
    requires
        0 <= k <= lines.len(),
    ensures
        all_reset(lines_pass(lang, true, search, lines, k).out),
        without_foreground(lines_pass(lang, true, search, lines, k).out) == without_foreground(
            lines_pass(lang, false, search, lines, k).out,
        ),
        lines_pass(lang, true, search, lines, k).mlc == lines_pass(lang, false, search, lines, k).mlc,
    decreases k,
{
    if k == 0 {
        assert(without_foreground(Seq::<(Seq<char>, Color, Color)>::empty()) =~= Seq::<(Seq<char>, Color)>::empty());
    } else {
        lemma_toggle_keeps_background(lang, search, lines, k - 1);
        let on = lines_pass(lang, false, search, lines, k - 1);
        let off = lines_pass(lang, true, search, lines, k - 1);
        let words = split_up_spec(lines[k - 1]);
        lemma_words_pass_off(
            PassState { comment: false, ..on },
            PassState { comment: false, ..off },
            lang,
            search,
            words,
            words.len() as int,
        );
        let a = words_pass(PassState { comment: false, ..on }, lang, false, search, words, words.len() as int);
        let b = words_pass(PassState { comment: false, ..off }, lang, true, search, words, words.len() as int);
        let nl = seq![("\r\n"@, Color::Reset, Color::Reset)];
        assert forall|i: int| 0 <= i < nl.len() implies (#[trigger] nl[i]).1 == Color::Reset by {}
        lemma_append_parts(a.out, nl, b.out, nl);
        assert(a.out.push(("\r\n"@, Color::Reset, Color::Reset)) == a.out + nl);
        assert(b.out.push(("\r\n"@, Color::Reset, Color::Reset)) == b.out + nl);
    }
}

} // verus!
