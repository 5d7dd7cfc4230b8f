use vstd::prelude::*;

use crate::parse::{
    parse_u8, parse_u8_spec, split_chars, split_on, split_once_chars, split_once_spec, to_chars,
    to_string, trim, trim_chars,
};
use crate::text::chars_of;

verus! {

/// A terminal color.
#[derive(PartialEq, Eq, Structural, Clone, Copy, Debug)]
pub enum Color {
    Reset,
    Black,
    Red,
    Green,
    Yellow,
    Blue,
    Magenta,
    Rgb { r: u8, g: u8, b: u8 },
}

/// Words drawn in one color.
pub struct Keywords {
    pub color: Color,
    pub keywords: Vec<String>,
}

/// The highlighting rules for one kind of file.
pub struct Language {
    pub colors: Vec<Keywords>,
    pub comment_keyword: String,
    pub ml_comment_start_keyword: String,
    pub ml_comment_end_keyword: String,
    pub capitals_color: Color,
    pub numbers_color: Color,
    pub text_color: Color,
}

/// What a `Language` holds, as plain values.
pub struct Rules {
    pub groups: Seq<(Color, Seq<Seq<char>>)>,
    pub comment: Seq<char>,
    pub ml_start: Seq<char>,
    pub ml_end: Seq<char>,
    pub capitals: Color,
    pub numbers: Color,
    pub text: Color,
}

pub open spec fn keywords_view(k: Keywords) -> (Color, Seq<Seq<char>>) {
    (k.color, k.keywords@.map_values(|s: String| s@))
}

impl Language {
    pub open spec fn view(&self) -> Rules {
        Rules {
            groups: self.colors@.map_values(|k: Keywords| keywords_view(k)),
            comment: self.comment_keyword@,
            ml_start: self.ml_comment_start_keyword@,
            ml_end: self.ml_comment_end_keyword@,
            capitals: self.capitals_color,
            numbers: self.numbers_color,
            text: self.text_color,
        }
    }
}

/// The rules of an empty rule text: nothing is colored.
pub open spec fn no_rules() -> Rules {
    Rules {
        groups: Seq::empty(),
        comment: Seq::empty(),
        ml_start: Seq::empty(),
        ml_end: Seq::empty(),
        capitals: Color::Reset,
        numbers: Color::Reset,
        text: Color::Reset,
    }
}

/// The rules a rule text starts from before its records apply.
pub open spec fn default_rules() -> Rules {
    Rules {
        groups: Seq::empty(),
        comment: Seq::empty(),
        ml_start: Seq::empty(),
        ml_end: Seq::empty(),
        capitals: Color::Rgb { r: 100, g: 255, b: 255 },
        numbers: Color::Rgb { r: 100, g: 255, b: 100 },
        text: Color::Magenta,
    }
}

/// `s` without its parentheses.
pub open spec fn drop_parens(s: Seq<char>) -> Seq<char>
    decreases s.len(),
{
    if s.len() == 0 {
        s
    } else if s.last() == '(' || s.last() == ')' {
        drop_parens(s.drop_last())
    } else {
        drop_parens(s.drop_last()).push(s.last())
    }
}

/// A color written `r, g, b`, parentheses allowed: the first three pieces
/// between commas, trimmed, must each be a byte.
pub open spec fn color_spec(s: Seq<char>) -> Option<Color> {
    let parts = split_on(drop_parens(s), ',');
    if parts.len() < 3 {
        None
    } else {
        match (
            parse_u8_spec(trim(parts[0])),
            parse_u8_spec(trim(parts[1])),
            parse_u8_spec(trim(parts[2])),
        ) {
            (Some(r), Some(g), Some(b)) => Some(Color::Rgb { r, g, b }),
            _ => None,
        }
    }
}

/// What one record of a rule text does to the rules. A record is a word, a
/// space and its argument: `comment <token>`, `mlcomment <start> <end>`,
/// `capitals <color>`, `numbers <color>`, `text <color>`; any other record
/// is `(<color>) <word>, <word>, ...`. A record that does not parse changes
/// nothing.
pub open spec fn apply_record(rules: Rules, line: Seq<char>) -> Rules {
    match split_once_spec(line, ' ') {
        None => rules,
        Some((head, rest)) => if head == "comment"@ {
            Rules { comment: rest, ..rules }
        } else if head == "mlcomment"@ {
            match split_once_spec(rest, ' ') {
                Some((a, b)) => Rules { ml_start: a, ml_end: b, ..rules },
                None => rules,
            }
        } else if head == "capitals"@ {
            match color_spec(rest) {
                Some(c) => Rules { capitals: c, ..rules },
                None => rules,
            }
        } else if head == "numbers"@ {
            match color_spec(rest) {
                Some(c) => Rules { numbers: c, ..rules },
                None => rules,
            }
        } else if head == "text"@ {
            match color_spec(rest) {
                Some(c) => Rules { text: c, ..rules },
                None => rules,
            }
        } else {
            match split_once_spec(line, ')') {
                Some((color_part, words)) => match color_spec(color_part) {
                    Some(c) => Rules {
                        groups: rules.groups.push(
                            (c, split_on(words, ',').map_values(|w: Seq<char>| trim(w))),
                        ),
                        ..rules
                    },
                    None => rules,
                },
                None => rules,
            }
        },
    }
}

/// The records of `lines` applied in turn.
pub open spec fn apply_records(rules: Rules, lines: Seq<Seq<char>>) -> Rules
    decreases lines.len(),
{
    if lines.len() == 0 {
        rules
    } else {
        apply_record(apply_records(rules, lines.drop_last()), lines.last())
    }
}

/// The color of the first group, in order, that holds `word`.
pub open spec fn lookup(groups: Seq<(Color, Seq<Seq<char>>)>, word: Seq<char>) -> Option<Color>
    decreases groups.len(),
{
    if groups.len() == 0 {
        None
    } else if groups[0].1.contains(word) {
        Some(groups[0].0)
    } else {
        lookup(groups.skip(1), word)
    }
}

/// `s` without its parentheses.
fn strip_parens(s: &Vec<char>) -> (r: Vec<char>)
    ensures
        r@ == drop_parens(s@),
{
    let mut r: Vec<char> = Vec::new();
    let mut i: usize = 0;
    while i < s.len()
        invariant
            i <= s@.len(),
            r@ == drop_parens(s@.take(i as int)),
        decreases s.len() - i,
    {
        proof {
            assert(s@.take(i + 1).drop_last() =~= s@.take(i as int));
        }
        if s[i] != '(' && s[i] != ')' {
            r.push(s[i]);
        }
        i = i + 1;
    }
    assert(s@.take(s.len() as int) =~= s@);
    r
}

/// Whether `v` holds the characters of `lit`.
pub fn is_word(v: &Vec<char>, lit: &str) -> (r: bool)
    ensures
        r == (v@ == lit@),
{
    let w = chars_of(lit);
    if v.len() != w.len() {
        return false;
    }
    let mut i: usize = 0;
    while i < v.len()
        invariant
            v@.len() == w@.len(),
            w@ == lit@,
            i <= v@.len(),
            forall|j: int| 0 <= j < i ==> v@[j] == w@[j],
        decreases v.len() - i,
    {
        if v[i] != w[i] {
            assert(v@[i as int] != w@[i as int]);
            return false;
        }
        i = i + 1;
    }
    assert(v@ =~= w@);
    true
}

impl Language {
    /// Reads the highlighting rules from their text, one record per line;
    /// records that do not parse are skipped. An empty text colors nothing.
    pub fn new(input: String) -> (r: Language)
        ensures
            r.view() == if input@.len() == 0 {
                no_rules()
            } else {
                apply_records(default_rules(), split_on(input@, '\n'))
            },
    {
        let chars = to_chars(&input);
        if chars.len() == 0 {
            let r = Language {
                colors: Vec::new(),
                comment_keyword: String::new(),
                ml_comment_start_keyword: String::new(),
                ml_comment_end_keyword: String::new(),
                capitals_color: Color::Reset,
                numbers_color: Color::Reset,
                text_color: Color::Reset,
            };
            proof {
                assert(r.view().groups =~= no_rules().groups);
            }
            return r;
        }
        let mut lang = Language {
            colors: Vec::new(),
            comment_keyword: String::new(),
            ml_comment_start_keyword: String::new(),
            ml_comment_end_keyword: String::new(),
            capitals_color: Color::Rgb { r: 100, g: 255, b: 255 },
            numbers_color: Color::Rgb { r: 100, g: 255, b: 100 },
            text_color: Color::Magenta,
        };
        proof {
            assert(lang.view().groups =~= default_rules().groups);
        }
        let lines = split_chars(&chars, '\n');
        let ghost ls = split_on(input@, '\n');
        let mut i: usize = 0;
        while i < lines.len()
            invariant
                lines@.len() == ls.len(),
                forall|j: int| 0 <= j < lines@.len() ==> (#[trigger] lines@[j])@ == ls[j],
                i <= lines@.len(),
                lang.view() == apply_records(default_rules(), ls.take(i as int)),
            decreases lines.len() - i,
        {
            proof {
                assert(ls.take(i + 1).drop_last() =~= ls.take(i as int));
            }
            lang.apply(&lines[i]);
            i = i + 1;
        }
        assert(ls.take(lines.len() as int) =~= ls);
        lang
    }

    /// Applies one record of a rule text.
    fn apply(&mut self, line: &Vec<char>)
        ensures
            final(self).view() == apply_record(old(self).view(), line@),
    {
        let (head, rest) = match split_once_chars(line, ' ') {
            Some(t) => t,
            None => return ,
        };
        if is_word(&head, "comment") {
            self.comment_keyword = to_string(&rest);
        } else if is_word(&head, "mlcomment") {
            match split_once_chars(&rest, ' ') {
                Some((a, b)) => {
                    self.ml_comment_start_keyword = to_string(&a);
                    self.ml_comment_end_keyword = to_string(&b);
                },
                None => {},
            }
        } else if is_word(&head, "capitals") {
            match Language::parse_color(&rest) {
                Some(c) => {
                    self.capitals_color = c;
                },
                None => {},
            }
        } else if is_word(&head, "numbers") {
            match Language::parse_color(&rest) {
                Some(c) => {
                    self.numbers_color = c;
                },
                None => {},
            }
        } else if is_word(&head, "text") {
            match Language::parse_color(&rest) {
                Some(c) => {
                    self.text_color = c;
                },
                None => {},
            }
        } else {
            match split_once_chars(line, ')') {
                Some((color_part, words)) => match Language::parse_color(&color_part) {
                    Some(color) => {
                        let pieces = split_chars(&words, ',');
                        let mut keywords: Vec<String> = Vec::new();
                        let mut j: usize = 0;
                        while j < pieces.len()
                            invariant
                                j <= pieces@.len(),
                                pieces@.len() == split_on(words@, ',').len(),
                                forall|q: int|
                                    0 <= q < pieces@.len() ==> (#[trigger] pieces@[q])@
                                        == split_on(words@, ',')[q],
                                keywords@.len() == j,
                                forall|q: int|
                                    0 <= q < j ==> (#[trigger] keywords@[q])@ == trim(
                                        split_on(words@, ',')[q],
                                    ),
                            decreases pieces.len() - j,
                        {
                            keywords.push(to_string(&trim_chars(&pieces[j])));
                            j = j + 1;
                        }
                        let ghost before = self.colors@;
                        self.colors.push(Keywords { color, keywords });
                        proof {
                            assert(keywords@.map_values(|s: String| s@) =~= split_on(
                                words@,
                                ',',
                            ).map_values(|w: Seq<char>| trim(w)));
                            assert(self.colors@.map_values(|k: Keywords| keywords_view(k))
                                =~= before.map_values(|k: Keywords| keywords_view(k)).push(
                                keywords_view(Keywords { color, keywords }),
                            ));
                        }
                    },
                    None => {},
                },
                None => {},
            }
        }
    }

    /// The color written `r, g, b` in `input`, or `None` when it does not parse.
    fn parse_color(input: &Vec<char>) -> (r: Option<Color>)
        ensures
            r == color_spec(input@),
    {
        let parts = split_chars(&strip_parens(input), ',');
        if parts.len() < 3 {
            return None;
        }
        let r = match parse_u8(&trim_chars(&parts[0])) {
            Some(v) => v,
            None => {
                return None;
            },
        };
        let g = match parse_u8(&trim_chars(&parts[1])) {
            Some(v) => v,
            None => {
                return None;
            },
        };
        let b = match parse_u8(&trim_chars(&parts[2])) {
            Some(v) => v,
            None => {
                return None;
            },
        };
        Some(Color::Rgb { r, g, b })
    }

    /// The color of the first group of keywords that holds `input`, if any.
    pub fn get_color(&self, input: &String) -> (r: Option<Color>)
        ensures
            r == lookup(self.view().groups, input@),
    {
        let mut i: usize = 0;
        assert(self.view().groups.skip(0) =~= self.view().groups);
        while i < self.colors.len()
            invariant
                i <= self.colors@.len(),
                lookup(self.view().groups, input@) == lookup(
                    self.view().groups.skip(i as int),
                    input@,
                ),
            decreases self.colors.len() - i,
        {
            let k = &self.colors[i];
            let ghost g = self.view().groups.skip(i as int);
            proof {
                assert(g[0] == keywords_view(*k));
                assert(g.skip(1) =~= self.view().groups.skip(i + 1));
            }
            let mut j: usize = 0;
            while j < k.keywords.len()
                invariant
                    j <= k.keywords@.len(),
                    i < self.colors@.len(),
                    g == self.view().groups.skip(i as int),
                    g.len() > 0,
                    g[0] == keywords_view(*k),
                    lookup(self.view().groups, input@) == lookup(g, input@),
                    forall|q: int| 0 <= q < j ==> k.keywords@[q]@ != input@,
                decreases k.keywords.len() - j,
            {
                if k.keywords[j] == *input {
                    proof {
                        assert(keywords_view(*k).1[j as int] == input@);
                        assert(g[0].1.contains(input@));
                    }
                    return Some(k.color);
                }
                j = j + 1;
            }
            proof {
                assert forall|q: int| 0 <= q < keywords_view(*k).1.len() implies keywords_view(
                    *k,
                ).1[q] != input@ by {
                    assert(keywords_view(*k).1[q] == k.keywords@[q]@);
                }
            }
            i = i + 1;
        }
        None
    }
}


/// A line that opens the rules for some kinds of file: its first word is `!`.
pub open spec fn is_header(line: Seq<char>) -> bool {
    match split_once_spec(line, ' ') {
        Some((head, _)) => head == "!"@,
        None => false,
    }
}

/// Whether the header `line` names the kind of file `file_type`.
pub open spec fn names_type(line: Seq<char>, file_type: Seq<char>) -> bool {
    split_on(line, ' ').map_values(|w: Seq<char>| trim(w)).contains(file_type)
}

/// The rule lines that follow line `i`, up to the next header, each ending
/// with a newline.
pub open spec fn section_from(lines: Seq<Seq<char>>, i: int) -> Seq<char>
    decreases lines.len() - i,
{
    if i < 0 || i >= lines.len() || is_header(lines[i]) {
        Seq::empty()
    } else {
        lines[i] + seq!['\n'] + section_from(lines, i + 1)
    }
}

/// The index of the first header at or after `i` that names `file_type`.
pub open spec fn header_for(lines: Seq<Seq<char>>, file_type: Seq<char>, i: int) -> Option<int>
    decreases lines.len() - i,
{
    if i < 0 || i >= lines.len() {
        None
    } else if is_header(lines[i]) && names_type(lines[i], file_type) {
        Some(i)
    } else {
        header_for(lines, file_type, i + 1)
    }
}

/// The rules for files of kind `file_type` in a rule file: its lines,
/// trimmed, from the first header naming that kind up to the next header.
pub open spec fn rules_text_for(rules: Seq<char>, file_type: Seq<char>) -> Option<Seq<char>> {
    let lines = split_on(rules, '\n').map_values(|w: Seq<char>| trim(w));
    if file_type.len() == 0 {
        None
    } else {
        match header_for(lines, file_type, 0) {
            Some(i) => Some(section_from(lines, i + 1)),
            None => None,
        }
    }
}

fn header_line(line: &Vec<char>) -> (r: bool)
    ensures
        r == is_header(line@),
{
    match split_once_chars(line, ' ') {
        Some((head, _)) => is_word(&head, "!"),
        None => false,
    }
}

fn header_names(line: &Vec<char>, file_type: &Vec<char>) -> (r: bool)
    ensures
        r == names_type(line@, file_type@),
{
    let words = split_chars(line, ' ');
    let ghost ws = split_on(line@, ' ').map_values(|w: Seq<char>| trim(w));
    let mut j: usize = 0;
    while j < words.len()
        invariant
            j <= words@.len(),
            words@.len() == ws.len(),
            ws == split_on(line@, ' ').map_values(|w: Seq<char>| trim(w)),
            forall|q: int|
                0 <= q < words@.len() ==> (#[trigger] words@[q])@ == split_on(line@, ' ')[q],
            forall|q: int| 0 <= q < j ==> ws[q] != file_type@,
        decreases words.len() - j,
    {
        let t = trim_chars(&words[j]);
        if same_chars(&t, file_type) {
            assert(ws[j as int] == file_type@);
            return true;
        }
        j = j + 1;
    }
    false
}

fn same_chars(a: &Vec<char>, b: &Vec<char>) -> (r: bool)
    ensures
        r == (a@ == b@),
{
    if a.len() != b.len() {
        return false;
    }
    let mut i: usize = 0;
    while i < a.len()
        invariant
            a@.len() == b@.len(),
            i <= a@.len(),
            forall|j: int| 0 <= j < i ==> a@[j] == b@[j],
        decreases a.len() - i,
    {
        if a[i] != b[i] {
            assert(a@[i as int] != b@[i as int]);
            return false;
        }
        i = i + 1;
    }
    assert(a@ =~= b@);
    true
}

/// The rules for files of kind `file_type` in the text of a rule file, or
/// `None` when no header names that kind.
pub fn rules_for(rules: &String, file_type: &String) -> (r: Option<String>)
    ensures
        match rules_text_for(rules@, file_type@) {
            Some(t) => r is Some && r->0@ == t,
            None => r is None,
        },
{
    let ft = to_chars(file_type);
    if ft.len() == 0 {
        return None;
    }
    let raw = split_chars(&to_chars(rules), '\n');
    let ghost lines = split_on(rules@, '\n').map_values(|w: Seq<char>| trim(w));
    assert(lines.len() == raw@.len());
    let mut lines_v: Vec<Vec<char>> = Vec::new();
    let mut k: usize = 0;
    while k < raw.len()
        invariant
            k <= raw@.len(),
            raw@.len() == split_on(rules@, '\n').len(),
            forall|q: int| 0 <= q < raw@.len() ==> (#[trigger] raw@[q])@ == split_on(rules@, '\n')[q],
            lines == split_on(rules@, '\n').map_values(|w: Seq<char>| trim(w)),
            lines_v@.len() == k,
            forall|q: int| 0 <= q < k ==> (#[trigger] lines_v@[q])@ == lines[q],
        decreases raw.len() - k,
    {
        lines_v.push(trim_chars(&raw[k]));
        k = k + 1;
    }
    let n = lines_v.len();
    let mut i: usize = 0;
    while i < n
        invariant
            n == lines_v@.len(),
            n == lines.len(),
            lines == split_on(rules@, '\n').map_values(|w: Seq<char>| trim(w)),
            ft@ == file_type@,
            ft@.len() > 0,
            forall|q: int| 0 <= q < n ==> (#[trigger] lines_v@[q])@ == lines[q],
            i <= n,
            header_for(lines, ft@, i as int) == header_for(lines, ft@, 0),
        decreases n - i,
    {
        if header_line(&lines_v[i]) && header_names(&lines_v[i], &ft) {
            let mut out: Vec<char> = Vec::new();
            let mut j: usize = i + 1;
            while j < n && !header_line(&lines_v[j])
                invariant
                    n == lines_v@.len(),
                    n == lines.len(),
                    forall|q: int| 0 <= q < n ==> (#[trigger] lines_v@[q])@ == lines[q],
                    i < j <= n,
                    out@ + section_from(lines, j as int) == section_from(lines, i + 1),
                decreases n - j,
            {
                let ghost before = out@;
                let mut q: usize = 0;
                while q < lines_v[j].len()
                    invariant
                        j < n,
                        n == lines_v@.len(),
                        q <= lines_v@[j as int]@.len(),
                        out@ == before + lines_v@[j as int]@.take(q as int),
                    decreases lines_v@[j as int]@.len() - q,
                {
                    out.push(lines_v[j][q]);
                    q = q + 1;
                    proof {
                        assert(out@ =~= before + lines_v@[j as int]@.take(q as int));
                    }
                }
                out.push('\n');
                proof {
                    assert(lines_v@[j as int]@.take(q as int) =~= lines[j as int]);
                    assert(out@ =~= before + lines[j as int] + seq!['\n']);
                }
                j = j + 1;
            }
            proof {
                assert(section_from(lines, j as int) =~= Seq::<char>::empty());
                assert(out@ =~= section_from(lines, i + 1));
            }
            return Some(to_string(&out));
        }
        i = i + 1;
    }
    None
}

} // verus!
