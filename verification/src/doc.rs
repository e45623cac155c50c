use vstd::prelude::*;

use crate::strutil::chars_to_string;

verus! {

// The manifest and repository-index documents use a small line-oriented
// grammar. A document is a sequence of lines; each line holds
// whitespace-separated words. A word is a brace (`{` or `}`), a bare
// value, a quoted value (no whitespace and no quotes inside), or a
// `key=value` property. A line names a node, lists its arguments and
// properties, and may open a block of child nodes with a trailing `{`; a
// line holding only `}` closes the innermost block.
/// In-line whitespace: spaces, tabs and carriage returns separate words;
/// only a line feed ends a line.
pub open spec fn spec_space(c: char) -> bool {
    c == ' ' || c == '\t' || c == '\r'
}

/// The lines remaining in `s`, with `cur` the line read so far: lines are
/// cut at every line feed, and a last line is kept only if it is
/// non-empty.
pub open spec fn spec_split_lines_rest(s: Seq<char>, cur: Seq<char>) -> Seq<Seq<char>>
    decreases s.len(),
{
    if s.len() == 0 {
        if cur.len() > 0 {
            seq![cur]
        } else {
            seq![]
        }
    } else if s[0] == '\n' {
        seq![cur] + spec_split_lines_rest(s.drop_first(), Seq::empty())
    } else {
        spec_split_lines_rest(s.drop_first(), cur.push(s[0]))
    }
}

/// The lines of a document.
pub open spec fn spec_split_lines(s: Seq<char>) -> Seq<Seq<char>> {
    spec_split_lines_rest(s, Seq::empty())
}

/// The words remaining in `l`, with `cur` the word read so far: words are
/// cut at every run of in-line whitespace.
pub open spec fn spec_split_words_rest(l: Seq<char>, cur: Seq<char>) -> Seq<Seq<char>>
    decreases l.len(),
{
    if l.len() == 0 {
        if cur.len() > 0 {
            seq![cur]
        } else {
            seq![]
        }
    } else if spec_space(l[0]) {
        if cur.len() > 0 {
            seq![cur] + spec_split_words_rest(l.drop_first(), Seq::empty())
        } else {
            spec_split_words_rest(l.drop_first(), Seq::empty())
        }
    } else {
        spec_split_words_rest(l.drop_first(), cur.push(l[0]))
    }
}

/// The words of a line.
pub open spec fn spec_words(l: Seq<char>) -> Seq<Seq<char>> {
    spec_split_words_rest(l, Seq::empty())
}

/// Split a document into its lines.
pub fn split_lines(chars: &Vec<char>) -> (r: Vec<Vec<char>>)
    ensures
        r.deep_view() == spec_split_lines(chars@),
{
    let n = chars.len();
    let mut r: Vec<Vec<char>> = Vec::new();
    let mut cur: Vec<char> = Vec::new();
    let mut i: usize = 0;
    proof {
        assert(chars@.subrange(0, n as int) =~= chars@);
        assert(r.deep_view() + spec_split_lines_rest(chars@, Seq::empty()) =~= spec_split_lines(
            chars@,
        ));
    }
    while i < n
        invariant
            i <= n,
            n == chars@.len(),
            r.deep_view() + spec_split_lines_rest(chars@.subrange(i as int, n as int), cur@)
                == spec_split_lines(chars@),
        decreases n - i,
    {
        let ghost rest = chars@.subrange(i as int, n as int);
        proof {
            assert(rest.drop_first() =~= chars@.subrange(i + 1, n as int));
            assert(rest[0] == chars@[i as int]);
        }
        let c = chars[i];
        if c == '\n' {
            let ghost old_r = r;
            let ghost old_cur = cur@;
            r.push(cur);
            cur = Vec::new();
            proof {
                assert(r.deep_view() =~~= old_r.deep_view().push(old_cur));
                assert(old_r.deep_view().push(old_cur) + spec_split_lines_rest(
                    chars@.subrange(i + 1, n as int),
                    Seq::empty(),
                ) =~= old_r.deep_view() + (seq![old_cur] + spec_split_lines_rest(
                    chars@.subrange(i + 1, n as int),
                    Seq::empty(),
                )));
            }
        } else {
            cur.push(c);
        }
        i += 1;
    }
    proof {
        assert(chars@.subrange(n as int, n as int) =~= Seq::<char>::empty());
    }
    if cur.len() > 0 {
        let ghost old_r = r;
        let ghost old_cur = cur@;
        proof {
            assert(cur.deep_view() =~= cur@);
        }
        r.push(cur);
        proof {
            assert(r.deep_view() =~~= old_r.deep_view().push(old_cur));
            assert(old_r.deep_view().push(old_cur) =~= old_r.deep_view() + seq![old_cur]);
        }
    } else {
        proof {
            assert(r.deep_view() + Seq::<Seq<char>>::empty() =~= r.deep_view());
        }
    }
    r
}

/// Split a line into its words.
pub fn split_words(line: &Vec<char>) -> (r: Vec<Vec<char>>)
    ensures
        r.deep_view() == spec_words(line@),
{
    let n = line.len();
    let mut r: Vec<Vec<char>> = Vec::new();
    let mut cur: Vec<char> = Vec::new();
    let mut i: usize = 0;
    proof {
        assert(line@.subrange(0, n as int) =~= line@);
        assert(r.deep_view() + spec_split_words_rest(line@, Seq::empty()) =~= spec_words(line@));
    }
    while i < n
        invariant
            i <= n,
            n == line@.len(),
            r.deep_view() + spec_split_words_rest(line@.subrange(i as int, n as int), cur@)
                == spec_words(line@),
        decreases n - i,
    {
        let ghost rest = line@.subrange(i as int, n as int);
        proof {
            assert(rest.drop_first() =~= line@.subrange(i + 1, n as int));
            assert(rest[0] == line@[i as int]);
        }
        let c = line[i];
        if c == ' ' || c == '\t' || c == '\r' {
            if cur.len() > 0 {
                let ghost old_r = r;
                let ghost old_cur = cur@;
                proof {
                    assert(cur.deep_view() =~= cur@);
                }
                r.push(cur);
                cur = Vec::new();
                proof {
                    assert(r.deep_view() =~~= old_r.deep_view().push(old_cur));
                    assert(old_r.deep_view().push(old_cur) + spec_split_words_rest(
                        line@.subrange(i + 1, n as int),
                        Seq::empty(),
                    ) =~= old_r.deep_view() + (seq![old_cur] + spec_split_words_rest(
                        line@.subrange(i + 1, n as int),
                        Seq::empty(),
                    )));
                }
            } else {
                proof {
                    assert(cur@ =~= Seq::<char>::empty());
                }
            }
        } else {
            cur.push(c);
        }
        i += 1;
    }
    proof {
        assert(line@.subrange(n as int, n as int) =~= Seq::<char>::empty());
    }
    if cur.len() > 0 {
        let ghost old_r = r;
        let ghost old_cur = cur@;
        proof {
            assert(cur.deep_view() =~= cur@);
        }
        r.push(cur);
        proof {
            assert(r.deep_view() =~~= old_r.deep_view().push(old_cur));
            assert(old_r.deep_view().push(old_cur) =~= old_r.deep_view() + seq![old_cur]);
        }
    } else {
        proof {
            assert(r.deep_view() + Seq::<Seq<char>>::empty() =~= r.deep_view());
        }
    }
    r
}

/// A character that may stand in a bare value or a property key.
pub open spec fn spec_ident_char(c: char) -> bool {
    !spec_space(c) && c != '\n' && c != '"' && c != '{' && c != '}' && c != '='
}

/// A non-empty word of bare-value characters.
pub open spec fn spec_is_ident(w: Seq<char>) -> bool {
    w.len() > 0 && forall|i: int| 0 <= i < w.len() ==> spec_ident_char(#[trigger] w[i])
}

/// A quoted value: quotes around characters that hold no quote.
pub open spec fn spec_quoted(w: Seq<char>) -> bool {
    w.len() >= 2 && w[0] == '"' && w[w.len() - 1] == '"' && forall|i: int|
        1 <= i < w.len() - 1 ==> #[trigger] w[i] != '"'
}

/// The string a value word stands for: a quoted word without its quotes,
/// a bare word as it is; anything else is no value.
pub open spec fn spec_parse_value(w: Seq<char>) -> Option<Seq<char>> {
    if spec_quoted(w) {
        Some(w.subrange(1, w.len() - 1))
    } else if spec_is_ident(w) {
        Some(w)
    } else {
        None
    }
}

/// The position of the first `=` in a word, or the word's length.
pub open spec fn spec_find_eq(w: Seq<char>) -> int
    decreases w.len(),
{
    if w.len() == 0 {
        0
    } else if w[0] == '=' {
        0
    } else {
        1 + spec_find_eq(w.drop_first())
    }
}

/// The mathematical value of one word: an opening or closing brace, an
/// argument value, or a `key=value` property.
pub enum TokModel {
    LBrace,
    RBrace,
    Arg(Seq<char>),
    Prop(Seq<char>, Seq<char>),
}

/// What one word means.
pub open spec fn spec_parse_word(w: Seq<char>) -> Option<TokModel> {
    if w.len() == 0 {
        None
    } else if w.len() == 1 && w[0] == '{' {
        Some(TokModel::LBrace)
    } else if w.len() == 1 && w[0] == '}' {
        Some(TokModel::RBrace)
    } else if w[0] == '"' {
        match spec_parse_value(w) {
            Some(v) => Some(TokModel::Arg(v)),
            None => None,
        }
    } else {
        let e = spec_find_eq(w);
        if e == w.len() {
            match spec_parse_value(w) {
                Some(v) => Some(TokModel::Arg(v)),
                None => None,
            }
        } else if e == 0 {
            None
        } else {
            let key = w.subrange(0, e);
            let val = w.subrange(e + 1, w.len() as int);
            if spec_is_ident(key) {
                match spec_parse_value(val) {
                    Some(v) => Some(TokModel::Prop(key, v)),
                    None => None,
                }
            } else {
                None
            }
        }
    }
}

/// One word, parsed.
pub enum Tok {
    LBrace,
    RBrace,
    Arg(String),
    Prop(String, String),
}

impl View for Tok {
    type V = TokModel;

    open spec fn view(&self) -> TokModel {
        match self {
            Tok::LBrace => TokModel::LBrace,
            Tok::RBrace => TokModel::RBrace,
            Tok::Arg(v) => TokModel::Arg(v@),
            Tok::Prop(k, v) => TokModel::Prop(k@, v@),
        }
    }
}

impl DeepView for Tok {
    type V = TokModel;

    open spec fn deep_view(&self) -> TokModel {
        self.view()
    }
}

/// The position of the first `=` in a word, or its length.
fn find_eq(w: &Vec<char>) -> (r: usize)
    ensures
        r as int == spec_find_eq(w@),
        r <= w@.len(),
{
    let n = w.len();
    let mut i: usize = 0;
    proof {
        assert(w@.subrange(0, n as int) =~= w@);
    }
    while i < n
        invariant
            i <= n,
            n == w@.len(),
            spec_find_eq(w@) == i + spec_find_eq(w@.subrange(i as int, n as int)),
            forall|j: int| 0 <= j < i ==> w@[j] != '=',
        decreases n - i,
    {
        let ghost rest = w@.subrange(i as int, n as int);
        proof {
            assert(rest.drop_first() =~= w@.subrange(i + 1, n as int));
            assert(rest[0] == w@[i as int]);
        }
        if w[i] == '=' {
            return i;
        }
        i += 1;
    }
    proof {
        assert(w@.subrange(n as int, n as int) =~= Seq::<char>::empty());
    }
    n
}

/// Whether every character of `w[from..to]` may stand in a bare value.
fn is_ident_range(w: &Vec<char>, from: usize, to: usize) -> (r: bool)
    requires
        from <= to <= w@.len(),
    ensures
        r == spec_is_ident(w@.subrange(from as int, to as int)),
{
    let ghost sub = w@.subrange(from as int, to as int);
    if from == to {
        return false;
    }
    let mut i: usize = from;
    while i < to
        invariant
            from <= i <= to <= w@.len(),
            sub == w@.subrange(from as int, to as int),
            forall|j: int| 0 <= j < i - from ==> spec_ident_char(#[trigger] sub[j]),
        decreases to - i,
    {
        let c = w[i];
        proof {
            assert(sub[i - from] == w@[i as int]);
        }
        if c == ' ' || c == '\t' || c == '\r' || c == '\n' || c == '"' || c == '{' || c == '}'
            || c == '=' {
            return false;
        }
        i += 1;
    }
    true
}

/// Parse the value word `w[from..to]` into the string it stands for.
fn parse_value_range(w: &Vec<char>, from: usize, to: usize) -> (r: Option<String>)
    requires
        from <= to <= w@.len(),
    ensures
        match r {
            Some(s) => spec_parse_value(w@.subrange(from as int, to as int)) == Some(s@),
            None => spec_parse_value(w@.subrange(from as int, to as int)) is None,
        },
{
    let ghost sub = w@.subrange(from as int, to as int);
    let len = to - from;
    if len >= 2 && w[from] == '"' && w[to - 1] == '"' {
        proof {
            assert(sub[0] == w@[from as int]);
            assert(sub[sub.len() - 1] == w@[to - 1]);
        }
        let mut i: usize = from + 1;
        while i < to - 1
            invariant
                from + 1 <= i <= to - 1,
                to <= w@.len(),
                sub == w@.subrange(from as int, to as int),
                sub.len() == to - from,
                forall|j: int| 1 <= j < i - from ==> #[trigger] sub[j] != '"',
            decreases to - i,
        {
            proof {
                assert(sub[i - from] == w@[i as int]);
            }
            if w[i] == '"' {
                proof {
                    assert(!spec_quoted(sub));
                    assert(!spec_is_ident(sub));
                }
                return None;
            }
            i += 1;
        }
        proof {
            assert(spec_quoted(sub));
        }
        let s = chars_to_string(w, from + 1, to - 1);
        proof {
            assert(s@ =~= sub.subrange(1, sub.len() - 1));
        }
        Some(s)
    } else if len >= 1 && w[from] == '"' {
        proof {
            assert(sub[0] == w@[from as int]);
            assert(!spec_quoted(sub));
            assert(!spec_is_ident(sub));
        }
        None
    } else {
        proof {
            if sub.len() >= 2 {
                assert(sub[0] == w@[from as int]);
            }
            assert(!spec_quoted(sub));
        }
        if is_ident_range(w, from, to) {
            let s = chars_to_string(w, from, to);
            Some(s)
        } else {
            None
        }
    }
}

/// Parse one word.
fn parse_word(w: &Vec<char>) -> (r: Option<Tok>)
    ensures
        match r {
            Some(t) => spec_parse_word(w@) == Some(t@),
            None => spec_parse_word(w@) is None,
        },
{
    let n = w.len();
    if n == 0 {
        return None;
    }
    if n == 1 && w[0] == '{' {
        return Some(Tok::LBrace);
    }
    if n == 1 && w[0] == '}' {
        return Some(Tok::RBrace);
    }
    proof {
        assert(w@.subrange(0, n as int) =~= w@);
    }
    if w[0] == '"' {
        return match parse_value_range(w, 0, n) {
            Some(s) => Some(Tok::Arg(s)),
            None => None,
        };
    }
    let e = find_eq(w);
    if e == n {
        match parse_value_range(w, 0, n) {
            Some(s) => Some(Tok::Arg(s)),
            None => None,
        }
    } else if e == 0 {
        None
    } else {
        if !is_ident_range(w, 0, e) {
            return None;
        }
        match parse_value_range(w, e + 1, n) {
            Some(v) => {
                let key = chars_to_string(w, 0, e);
                Some(Tok::Prop(key, v))
            },
            None => None,
        }
    }
}

/// One `key=value` property of a node.
pub struct PropPair {
    pub key: String,
    pub value: String,
}

impl View for PropPair {
    type V = (Seq<char>, Seq<char>);

    open spec fn view(&self) -> (Seq<char>, Seq<char>) {
        (self.key@, self.value@)
    }
}

impl DeepView for PropPair {
    type V = (Seq<char>, Seq<char>);

    open spec fn deep_view(&self) -> (Seq<char>, Seq<char>) {
        self.view()
    }
}

/// The mathematical value of one parsed line.
pub enum LineModel {
    /// A line holding only `}`: the innermost block closes.
    Close,
    /// A node: its name, arguments and properties in order, and whether a
    /// trailing `{` opens a block of children.
    Node {
        name: Seq<char>,
        args: Seq<Seq<char>>,
        props: Seq<(Seq<char>, Seq<char>)>,
        opens: bool,
    },
}

/// One parsed line.
pub enum Line {
    Close,
    Node { name: String, args: Vec<String>, props: Vec<PropPair>, opens: bool },
}

impl View for Line {
    type V = LineModel;

    open spec fn view(&self) -> LineModel {
        match self {
            Line::Close => LineModel::Close,
            Line::Node { name, args, props, opens } => LineModel::Node {
                name: name@,
                args: args.deep_view(),
                props: props.deep_view(),
                opens: *opens,
            },
        }
    }
}

/// The node a line's remaining tokens describe, the name and the entries
/// read so far given: arguments and properties accumulate in order, and
/// only a final `{` may open a block.
pub open spec fn spec_line_entries(
    toks: Seq<TokModel>,
    i: int,
    name: Seq<char>,
    args: Seq<Seq<char>>,
    props: Seq<(Seq<char>, Seq<char>)>,
) -> Option<LineModel>
    decreases toks.len() - i,
{
    if i >= toks.len() {
        Some(LineModel::Node { name, args, props, opens: false })
    } else {
        match toks[i] {
            TokModel::Arg(v) => spec_line_entries(toks, i + 1, name, args.push(v), props),
            TokModel::Prop(k, v) => spec_line_entries(toks, i + 1, name, args, props.push((k, v))),
            TokModel::LBrace => if i == toks.len() - 1 {
                Some(LineModel::Node { name, args, props, opens: true })
            } else {
                None
            },
            TokModel::RBrace => None,
        }
    }
}

/// What a line's tokens mean: nothing (a blank line), a block close, or a
/// node; `None` is a syntax error.
pub open spec fn spec_parse_line_toks(toks: Seq<TokModel>) -> Option<Option<LineModel>> {
    if toks.len() == 0 {
        Some(None)
    } else {
        match toks[0] {
            TokModel::RBrace => if toks.len() == 1 {
                Some(Some(LineModel::Close))
            } else {
                None
            },
            TokModel::Arg(name) => match spec_line_entries(
                toks,
                1,
                name,
                Seq::empty(),
                Seq::empty(),
            ) {
                Some(l) => Some(Some(l)),
                None => None,
            },
            _ => None,
        }
    }
}

/// The tokens of the first `upto` words, or `None` when any word is no
/// token.
pub open spec fn spec_toks(ws: Seq<Seq<char>>, upto: int) -> Option<Seq<TokModel>>
    decreases upto,
{
    if upto <= 0 {
        Some(Seq::empty())
    } else {
        match spec_toks(ws, upto - 1) {
            Some(ts) => match spec_parse_word(ws[upto - 1]) {
                Some(t) => Some(ts.push(t)),
                None => None,
            },
            None => None,
        }
    }
}

/// What one line of a document means.
pub open spec fn spec_line_of(l: Seq<char>) -> Option<Option<LineModel>> {
    match spec_toks(spec_words(l), spec_words(l).len() as int) {
        None => None,
        Some(ts) => spec_parse_line_toks(ts),
    }
}

/// One line, parsed: invalid, blank, or content.
pub enum ParsedLine {
    Invalid,
    Blank,
    Content(Line),
}

/// Parse one line of a document.
pub fn parse_line(line: &Vec<char>) -> (r: ParsedLine)
    ensures
        match r {
            ParsedLine::Invalid => spec_line_of(line@) is None,
            ParsedLine::Blank => spec_line_of(line@) == Some(None::<LineModel>),
            ParsedLine::Content(l) => spec_line_of(line@) == Some(Some(l@)),
        },
{
    let words = split_words(line);
    let ghost ws = words.deep_view();
    let nw = words.len();
    let mut toks: Vec<Tok> = Vec::new();
    let mut i: usize = 0;
    proof {
        assert(ws.len() == nw);
    }
    while i < nw
        invariant
            i <= nw,
            nw == words@.len(),
            ws == words.deep_view(),
            ws == spec_words(line@),
            ws.len() == nw,
            toks@.len() == i,
            spec_toks(ws, i as int) == Some(toks.deep_view()),
        decreases nw - i,
    {
        match parse_word(&words[i]) {
            Some(t) => {
                let ghost old_toks = toks;
                proof {
                    assert(words.deep_view()[i as int] == words@[i as int].deep_view());
                    assert(words@[i as int].deep_view() =~= words@[i as int]@);
                }
                toks.push(t);
                proof {
                    assert(toks.deep_view() =~= old_toks.deep_view().push(toks@[i as int]@));
                }
            },
            None => {
                proof {
                    assert(words.deep_view()[i as int] == words@[i as int].deep_view());
                    assert(words@[i as int].deep_view() =~= words@[i as int]@);
                    assert(spec_toks(ws, i + 1) is None);
                    lemma_spec_toks_none_extends(ws, i + 1, nw as int);
                    assert(ws == spec_words(line@));
                    assert(spec_toks(spec_words(line@), spec_words(line@).len() as int) is None);
                    assert(spec_line_of(line@) is None);
                }
                return ParsedLine::Invalid;
            },
        }
        i += 1;
    }
    let nt = toks.len();
    let ghost tsm = toks.deep_view();
    proof {
        assert(spec_toks(ws, nw as int) == Some(tsm));
        assert(spec_line_of(line@) == spec_parse_line_toks(tsm));
        assert(tsm.len() == nt);
    }
    if nt == 0 {
        return ParsedLine::Blank;
    }
    let first_is_rbrace = matches!(&toks[0], Tok::RBrace);
    if first_is_rbrace {
        if nt == 1 {
            return ParsedLine::Content(Line::Close);
        } else {
            return ParsedLine::Invalid;
        }
    }
    proof {
        assert(tsm[0] == toks@[0]@);
    }
    let name = match &toks[0] {
        Tok::Arg(v) => v.clone(),
        _ => {
            return ParsedLine::Invalid;
        },
    };
    proof {
        assert(tsm[0] is Arg);
        assert(name@ == tsm[0]->Arg_0);
    }
    let mut args: Vec<String> = Vec::new();
    let mut props: Vec<PropPair> = Vec::new();
    let mut k: usize = 1;
    proof {
        assert(args.deep_view() =~= Seq::<Seq<char>>::empty());
        assert(props.deep_view() =~= Seq::<(Seq<char>, Seq<char>)>::empty());
    }
    while k < nt
        invariant
            1 <= k <= nt,
            nt == toks@.len(),
            tsm == toks.deep_view(),
            tsm.len() == nt,
            toks@.len() == nt,
            spec_line_of(line@) == spec_parse_line_toks(tsm),
            name@ == (match tsm[0] {
                TokModel::Arg(v) => v,
                _ => Seq::<char>::empty(),
            }),
            tsm[0] is Arg,
            spec_line_entries(tsm, k as int, name@, args.deep_view(), props.deep_view())
                == spec_line_entries(tsm, 1, name@, Seq::empty(), Seq::empty()),
        decreases nt - k,
    {
        proof {
            assert(toks.deep_view()[k as int] == toks@[k as int]@);
        }
        match &toks[k] {
            Tok::Arg(v) => {
                let ghost old_args = args.deep_view();
                args.push(v.clone());
                proof {
                    assert(args.deep_view() =~= old_args.push(toks@[k as int]@->Arg_0));
                }
            },
            Tok::Prop(pk, pv) => {
                let ghost old_props = props.deep_view();
                props.push(PropPair { key: pk.clone(), value: pv.clone() });
                proof {
                    assert(props.deep_view() =~= old_props.push(
                        (toks@[k as int]@->Prop_0, toks@[k as int]@->Prop_1),
                    ));
                }
            },
            Tok::LBrace => {
                if k == nt - 1 {
                    proof {
                        assert(spec_line_entries(
                            tsm,
                            k as int,
                            name@,
                            args.deep_view(),
                            props.deep_view(),
                        ) == Some(LineModel::Node {
                            name: name@,
                            args: args.deep_view(),
                            props: props.deep_view(),
                            opens: true,
                        }));
                        assert(spec_parse_line_toks(tsm) == Some(Some(LineModel::Node {
                            name: name@,
                            args: args.deep_view(),
                            props: props.deep_view(),
                            opens: true,
                        })));
                    }
                    return ParsedLine::Content(
                        Line::Node { name, args, props, opens: true },
                    );
                } else {
                    proof {
                        assert(spec_line_entries(
                            tsm,
                            k as int,
                            name@,
                            args.deep_view(),
                            props.deep_view(),
                        ) is None);
                        assert(spec_parse_line_toks(tsm) is None);
                    }
                    return ParsedLine::Invalid;
                }
            },
            Tok::RBrace => {
                proof {
                    assert(spec_line_entries(
                        tsm,
                        k as int,
                        name@,
                        args.deep_view(),
                        props.deep_view(),
                    ) is None);
                    assert(spec_parse_line_toks(tsm) is None);
                }
                return ParsedLine::Invalid;
            },
        }
        k += 1;
    }
    proof {
        assert(spec_line_entries(tsm, nt as int, name@, args.deep_view(), props.deep_view())
            == Some(LineModel::Node {
            name: name@,
            args: args.deep_view(),
            props: props.deep_view(),
            opens: false,
        }));
    }
    ParsedLine::Content(Line::Node { name, args, props, opens: false })
}

/// Reading characters that hold no line feed only grows the current
/// line.
pub proof fn lemma_lines_skip(a: Seq<char>, b: Seq<char>, cur: Seq<char>)
    requires
        forall|i: int| 0 <= i < a.len() ==> a[i] != '\n',
    ensures
        spec_split_lines_rest(a + b, cur) == spec_split_lines_rest(b, cur + a),
    decreases a.len(),
{
    if a.len() == 0 {
        assert(a + b =~= b);
        assert(cur + a =~= cur);
    } else {
        assert((a + b)[0] == a[0]);
        assert((a + b).drop_first() =~= a.drop_first() + b);
        lemma_lines_skip(a.drop_first(), b, cur.push(a[0]));
        assert(cur.push(a[0]) + a.drop_first() =~= cur + a);
    }
}

/// A line feed cuts the current line.
pub proof fn lemma_lines_newline(b: Seq<char>, cur: Seq<char>)
    ensures
        spec_split_lines_rest(seq!['\n'] + b, cur) == seq![cur] + spec_split_lines_rest(
            b,
            Seq::empty(),
        ),
{
    assert((seq!['\n'] + b)[0] == '\n');
    assert((seq!['\n'] + b).drop_first() =~= b);
}

/// Reading characters that hold no in-line whitespace only grows the
/// current word.
pub proof fn lemma_words_skip(a: Seq<char>, b: Seq<char>, cur: Seq<char>)
    requires
        forall|i: int| 0 <= i < a.len() ==> !spec_space(#[trigger] a[i]),
    ensures
        spec_split_words_rest(a + b, cur) == spec_split_words_rest(b, cur + a),
    decreases a.len(),
{
    if a.len() == 0 {
        assert(a + b =~= b);
        assert(cur + a =~= cur);
    } else {
        assert((a + b)[0] == a[0]);
        assert((a + b).drop_first() =~= a.drop_first() + b);
        lemma_words_skip(a.drop_first(), b, cur.push(a[0]));
        assert(cur.push(a[0]) + a.drop_first() =~= cur + a);
    }
}

/// A space cuts the current word, or is skipped when none is open.
pub proof fn lemma_words_space(b: Seq<char>, cur: Seq<char>)
    ensures
        spec_split_words_rest(seq![' '] + b, cur) == if cur.len() > 0 {
            seq![cur] + spec_split_words_rest(b, Seq::empty())
        } else {
            spec_split_words_rest(b, Seq::empty())
        },
{
    assert(spec_space((seq![' '] + b)[0]));
    assert((seq![' '] + b).drop_first() =~= b);
}

/// A word without `=` has none to find.
pub proof fn lemma_find_eq_none(w: Seq<char>)
    requires
        forall|i: int| 0 <= i < w.len() ==> w[i] != '=',
    ensures
        spec_find_eq(w) == w.len(),
    decreases w.len(),
{
    if w.len() > 0 {
        lemma_find_eq_none(w.drop_first());
    }
}

/// A bare word of value characters is an argument holding itself.
pub proof fn lemma_parse_word_bare(w: Seq<char>)
    requires
        spec_is_ident(w),
    ensures
        spec_parse_word(w) == Some(TokModel::Arg(w)),
{
    assert(spec_ident_char(w[0]));
    lemma_find_eq_none(w);
    assert(!spec_quoted(w));
}

/// A quoted word is an argument holding what stands between the quotes.
pub proof fn lemma_parse_word_quoted(v: Seq<char>)
    requires
        forall|i: int| 0 <= i < v.len() ==> v[i] != '"',
    ensures
        spec_parse_word(seq!['"'] + v + seq!['"']) == Some(TokModel::Arg(v)),
{
    let w = seq!['"'] + v + seq!['"'];
    assert(w.len() == v.len() + 2);
    assert(w[0] == '"');
    assert(w[w.len() - 1] == '"');
    assert forall|i: int| 1 <= i < w.len() - 1 implies #[trigger] w[i] != '"' by {
        assert(w[i] == v[i - 1]);
    }
    assert(spec_quoted(w));
    assert(w.subrange(1, w.len() - 1) =~= v);
}

/// What one node line of the generated shape means: a name word, one
/// quoted argument, and possibly an opening brace, with any run of
/// leading spaces.
pub proof fn lemma_line_node(indent: int, n_w: Seq<char>, v: Seq<char>, opens: bool)
    requires
        0 <= indent,
        spec_is_ident(n_w),
        forall|i: int| 0 <= i < v.len() ==> v[i] != '"' && !spec_space(#[trigger] v[i]) && #[trigger] v[i] != '\n',
    ensures
        spec_line_of(
            Seq::new(indent as nat, |i: int| ' ') + n_w + seq![' ', '"'] + v + (if opens {
                seq!['"', ' ', '{']
            } else {
                seq!['"']
            }),
        ) == Some(
            Some(
                LineModel::Node {
                    name: n_w,
                    args: seq![v],
                    props: Seq::empty(),
                    opens: opens,
                },
            ),
        ),
    decreases indent,
{
    let sp = Seq::new(indent as nat, |i: int| ' ');
    let tail = if opens {
        seq!['"', ' ', '{']
    } else {
        seq!['"']
    };
    let l = sp + n_w + seq![' ', '"'] + v + tail;
    if indent > 0 {
        // peel one leading space
        let sp1 = Seq::new((indent - 1) as nat, |i: int| ' ');
        let l1 = sp1 + n_w + seq![' ', '"'] + v + tail;
        assert(l =~= seq![' '] + l1);
        lemma_words_space(l1, Seq::empty());
        lemma_line_node(indent - 1, n_w, v, opens);
        assert(spec_words(l) == spec_words(l1));
    } else {
        assert(l =~= n_w + (seq![' '] + (seq!['"'] + v + tail)));
        lemma_words_skip(n_w, seq![' '] + (seq!['"'] + v + tail), Seq::empty());
        assert(Seq::<char>::empty() + n_w =~= n_w);
        lemma_words_space(seq!['"'] + v + tail, n_w);
        let qv = seq!['"'] + v + seq!['"'];
        if opens {
            assert(seq!['"'] + v + tail =~= qv + (seq![' '] + seq!['{']));
            lemma_words_skip(qv, seq![' '] + seq!['{'], Seq::empty());
            assert(Seq::<char>::empty() + qv =~= qv);
            lemma_words_space(seq!['{'], qv);
            lemma_words_skip(seq!['{'], Seq::empty(), Seq::empty());
            assert(Seq::<char>::empty() + seq!['{'] =~= seq!['{']);
            assert(spec_split_words_rest(Seq::empty(), seq!['{']) =~= seq![seq!['{']]);
            assert(spec_words(l) =~= seq![n_w, qv, seq!['{']]);
            lemma_parse_word_bare(n_w);
            lemma_parse_word_quoted(v);
            assert(spec_parse_word(seq!['{']) == Some(TokModel::LBrace));
            let ws = spec_words(l);
            assert(ws[0] == n_w && ws[1] == qv && ws[2] == seq!['{']);
            let ts = seq![
                TokModel::Arg(n_w),
                TokModel::Arg(v),
                TokModel::LBrace,
            ];
            assert(spec_toks(ws, 3) == Some(ts)) by {
                assert(spec_toks(ws, 0) == Some(Seq::<TokModel>::empty()));
                assert(spec_toks(ws, 1) == Some(Seq::<TokModel>::empty().push(TokModel::Arg(n_w))));
                assert(spec_toks(ws, 2) == Some(
                    Seq::<TokModel>::empty().push(TokModel::Arg(n_w)).push(TokModel::Arg(v)),
                ));
                assert(Seq::<TokModel>::empty().push(TokModel::Arg(n_w)).push(
                    TokModel::Arg(v),
                ).push(TokModel::LBrace) =~= ts);
            }
            assert(ts[1] == TokModel::Arg(v) && ts[2] == TokModel::LBrace && ts.len() == 3);
            assert(Seq::<Seq<char>>::empty().push(v) =~= seq![v]);
            assert(spec_line_entries(ts, 2, n_w, seq![v], Seq::empty()) == Some(
                LineModel::Node {
                    name: n_w,
                    args: seq![v],
                    props: Seq::empty(),
                    opens: true,
                },
            ));
            assert(spec_line_entries(ts, 1, n_w, Seq::empty(), Seq::empty())
                == spec_line_entries(ts, 2, n_w, Seq::<Seq<char>>::empty().push(v), Seq::empty()));
        } else {
            assert(seq!['"'] + v + tail =~= qv);
            lemma_words_skip(qv, Seq::empty(), Seq::empty());
            assert(Seq::<char>::empty() + qv =~= qv);
            assert(spec_split_words_rest(Seq::empty(), qv) =~= seq![qv]);
            assert(spec_words(l) =~= seq![n_w, qv]);
            lemma_parse_word_bare(n_w);
            lemma_parse_word_quoted(v);
            let ws = spec_words(l);
            assert(ws[0] == n_w && ws[1] == qv);
            let ts = seq![TokModel::Arg(n_w), TokModel::Arg(v)];
            assert(spec_toks(ws, 2) == Some(ts)) by {
                assert(spec_toks(ws, 0) == Some(Seq::<TokModel>::empty()));
                assert(spec_toks(ws, 1) == Some(Seq::<TokModel>::empty().push(TokModel::Arg(n_w))));
                assert(Seq::<TokModel>::empty().push(TokModel::Arg(n_w)).push(
                    TokModel::Arg(v),
                ) =~= ts);
            }
            assert(ts[1] == TokModel::Arg(v) && ts.len() == 2);
            assert(Seq::<Seq<char>>::empty().push(v) =~= seq![v]);
            assert(spec_line_entries(ts, 2, n_w, seq![v], Seq::empty()) == Some(
                LineModel::Node {
                    name: n_w,
                    args: seq![v],
                    props: Seq::empty(),
                    opens: false,
                },
            ));
            assert(spec_line_entries(ts, 1, n_w, Seq::empty(), Seq::empty())
                == spec_line_entries(ts, 2, n_w, Seq::<Seq<char>>::empty().push(v), Seq::empty()));
        }
    }
}

/// A line holding only `}` closes the innermost block.
pub proof fn lemma_line_close()
    ensures
        spec_line_of(seq!['}']) == Some(Some(LineModel::Close)),
{
    let l = seq!['}'];
    lemma_words_skip(l, Seq::empty(), Seq::empty());
    assert(Seq::<char>::empty() + l =~= l);
    assert(spec_split_words_rest(Seq::empty(), l) =~= seq![l]);
    assert(spec_words(l) =~= seq![l]);
    assert(spec_parse_word(l) == Some(TokModel::RBrace));
    let ws = spec_words(l);
    assert(ws.len() == 1 && ws[0] == l);
    assert(spec_toks(ws, 0) == Some(Seq::<TokModel>::empty()));
    assert(spec_toks(ws, 1) == Some(Seq::<TokModel>::empty().push(TokModel::RBrace)));
    let ts = Seq::<TokModel>::empty().push(TokModel::RBrace);
    assert(ts.len() == 1 && ts[0] == TokModel::RBrace);
}

/// Once a word fails to parse, the whole line fails, however many words
/// follow.
proof fn lemma_spec_toks_none_extends(ws: Seq<Seq<char>>, from: int, to: int)
    requires
        0 <= from <= to,
        spec_toks(ws, from) is None,
    ensures
        spec_toks(ws, to) is None,
    decreases to - from,
{
    if from < to {
        lemma_spec_toks_none_extends(ws, from + 1, to);
    }
}

} // verus!
