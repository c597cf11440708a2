use vstd::prelude::*;
use crate::text::{chars_of, string_of, unescape_value, unescaped_of};

verus! {

/// Whether a tag opens an element, closes one, or stands for an element with
/// no content (`<a/>`).
#[derive(Clone, Copy, Debug, PartialEq, Eq, Structural)]
pub enum TagKind {
    Open,
    Close,
    Empty,
}

/// An attribute of a tag, with its value already unescaped.
#[derive(Debug)]
pub struct Attr {
    pub key: String,
    pub value: String,
}

/// One markup tag of a document, in the order of the text.
#[derive(Debug)]
pub struct Tag {
    pub kind: TagKind,
    pub name: String,
    pub attrs: Vec<Attr>,
}

/// A tag as a mathematical value.
pub struct TagView {
    pub kind: TagKind,
    pub name: Seq<char>,
    pub attrs: Seq<(Seq<char>, Seq<char>)>,
}

pub open spec fn attr_view(a: Attr) -> (Seq<char>, Seq<char>) {
    (a.key@, a.value@)
}

pub open spec fn attrs_view(v: Seq<Attr>) -> Seq<(Seq<char>, Seq<char>)> {
    v.map_values(|a: Attr| attr_view(a))
}

impl View for Tag {
    type V = TagView;

    open spec fn view(&self) -> TagView {
        TagView { kind: self.kind, name: self.name@, attrs: attrs_view(self.attrs@) }
    }
}

pub open spec fn tags_view(v: Seq<Tag>) -> Seq<TagView> {
    v.map_values(|t: Tag| t@)
}

/// Where the scanner stands between two characters.
#[derive(Clone, Copy, Debug, PartialEq, Eq, Structural)]
pub enum Mode {
    /// Between tags: character data, which the document does not use.
    Text,
    /// Just after `<`.
    TagStart,
    /// Inside a processing instruction `<?...?>`.
    Pi,
    /// Inside a processing instruction, just after a `?`.
    PiQ,
    /// Just after `<!`.
    Bang0,
    /// Just after `<!-`.
    Bang1,
    /// Inside a declaration such as `<!DOCTYPE ...>`.
    Decl,
    /// Inside a comment.
    Comment0,
    /// Inside a comment, after one `-`.
    Comment1,
    /// Inside a comment, after two or more `-`.
    Comment2,
    /// Reading the name of a start tag.
    OpenName,
    /// Inside a start tag, between attributes.
    InTag,
    /// Reading an attribute's name.
    AttrName,
    /// After an attribute's name, before its `=`.
    AttrEq,
    /// After `=`, before the opening quote.
    AttrValStart,
    /// Inside a quoted attribute value.
    AttrVal,
    /// After the `/` of an empty-element tag.
    SelfClose,
    /// Reading the name of an end tag.
    CloseName,
    /// After the name of an end tag, before its `>`.
    CloseEnd,
}

/// The scanner's state as a mathematical value: the mode, the quote that
/// opened the value being read, whether whitespace follows the last
/// attribute, and the name, attributes, key and raw value read so far.
pub struct LexView {
    pub mode: Mode,
    pub quote: char,
    pub sep: bool,
    pub name: Seq<char>,
    pub attrs: Seq<(Seq<char>, Seq<char>)>,
    pub key: Seq<char>,
    pub value: Seq<char>,
}

struct Lexer {
    mode: Mode,
    quote: char,
    sep: bool,
    name: Vec<char>,
    attrs: Vec<Attr>,
    key: Vec<char>,
    value: Vec<char>,
}

impl View for Lexer {
    type V = LexView;

    closed spec fn view(&self) -> LexView {
        LexView {
            mode: self.mode,
            quote: self.quote,
            sep: self.sep,
            name: self.name@,
            attrs: attrs_view(self.attrs@),
            key: self.key@,
            value: self.value@,
        }
    }
}

pub open spec fn is_space(c: char) -> bool {
    c == ' ' || c == '\t' || c == '\n' || c == '\r'
}

pub open spec fn is_name_char(c: char) -> bool {
    !is_space(c) && c != '<' && c != '>' && c != '/' && c != '=' && c != '?' && c != '!'
        && c != '"' && c != '\''
}

pub open spec fn idle() -> LexView {
    LexView {
        mode: Mode::Text,
        quote: '"',
        sep: false,
        name: Seq::empty(),
        attrs: Seq::empty(),
        key: Seq::empty(),
        value: Seq::empty(),
    }
}

pub open spec fn with_mode(st: LexView, m: Mode) -> LexView {
    LexView { mode: m, ..st }
}

pub open spec fn emitting(st: LexView, kind: TagKind) -> Option<(LexView, Option<TagView>)> {
    Some((idle(), Some(TagView { kind, name: st.name, attrs: st.attrs })))
}

pub open spec fn moving(st: LexView, m: Mode) -> Option<(LexView, Option<TagView>)> {
    Some((with_mode(st, m), None))
}

/// What one character does to the scanner: its next state and the tag that
/// it completes, or `None` where the text cannot be markup.
pub open spec fn lex_step(st: LexView, c: char) -> Option<(LexView, Option<TagView>)> {
    match st.mode {
        Mode::Text => if c == '<' { moving(st, Mode::TagStart) } else { moving(st, Mode::Text) },
        Mode::TagStart => if c == '/' {
            moving(st, Mode::CloseName)
        } else if c == '?' {
            moving(st, Mode::Pi)
        } else if c == '!' {
            moving(st, Mode::Bang0)
        } else if is_name_char(c) {
            Some((LexView { mode: Mode::OpenName, name: st.name.push(c), ..st }, None))
        } else {
            None
        },
        Mode::Pi => if c == '?' { moving(st, Mode::PiQ) } else { moving(st, Mode::Pi) },
        Mode::PiQ => if c == '>' {
            moving(st, Mode::Text)
        } else if c == '?' {
            moving(st, Mode::PiQ)
        } else {
            moving(st, Mode::Pi)
        },
        Mode::Bang0 => if c == '-' {
            moving(st, Mode::Bang1)
        } else if c == '>' {
            moving(st, Mode::Text)
        } else {
            moving(st, Mode::Decl)
        },
        Mode::Bang1 => if c == '-' {
            moving(st, Mode::Comment0)
        } else if c == '>' {
            moving(st, Mode::Text)
        } else {
            moving(st, Mode::Decl)
        },
        Mode::Decl => if c == '>' { moving(st, Mode::Text) } else { moving(st, Mode::Decl) },
        Mode::Comment0 => if c == '-' { moving(st, Mode::Comment1) } else { moving(st, Mode::Comment0) },
        Mode::Comment1 => if c == '-' { moving(st, Mode::Comment2) } else { moving(st, Mode::Comment0) },
        Mode::Comment2 => if c == '>' {
            moving(st, Mode::Text)
        } else if c == '-' {
            moving(st, Mode::Comment2)
        } else {
            moving(st, Mode::Comment0)
        },
        Mode::OpenName => if is_name_char(c) {
            Some((LexView { name: st.name.push(c), ..st }, None))
        } else if is_space(c) {
            Some((LexView { mode: Mode::InTag, sep: true, ..st }, None))
        } else if c == '>' {
            emitting(st, TagKind::Open)
        } else if c == '/' {
            moving(st, Mode::SelfClose)
        } else {
            None
        },
        Mode::InTag => if is_space(c) {
            Some((LexView { sep: true, ..st }, None))
        } else if c == '>' {
            emitting(st, TagKind::Open)
        } else if c == '/' {
            moving(st, Mode::SelfClose)
        } else if is_name_char(c) && st.sep {
            Some((LexView { mode: Mode::AttrName, key: seq![c], ..st }, None))
        } else {
            None
        },
        Mode::AttrName => if is_name_char(c) {
            Some((LexView { key: st.key.push(c), ..st }, None))
        } else if is_space(c) {
            moving(st, Mode::AttrEq)
        } else if c == '=' {
            moving(st, Mode::AttrValStart)
        } else {
            None
        },
        Mode::AttrEq => if is_space(c) {
            moving(st, Mode::AttrEq)
        } else if c == '=' {
            moving(st, Mode::AttrValStart)
        } else {
            None
        },
        Mode::AttrValStart => if is_space(c) {
            moving(st, Mode::AttrValStart)
        } else if c == '"' || c == '\'' {
            Some((LexView { mode: Mode::AttrVal, quote: c, value: Seq::empty(), ..st }, None))
        } else {
            None
        },
        Mode::AttrVal => if c == st.quote {
            match unescaped_of(st.value) {
                Some(v) => Some(
                    (
                        LexView {
                            mode: Mode::InTag,
                            sep: false,
                            attrs: st.attrs.push((st.key, v)),
                            ..st
                        },
                        None,
                    ),
                ),
                None => None,
            }
        } else if c == '<' {
            None
        } else {
            Some((LexView { value: st.value.push(c), ..st }, None))
        },
        Mode::SelfClose => if c == '>' { emitting(st, TagKind::Empty) } else { None },
        Mode::CloseName => if is_name_char(c) {
            Some((LexView { name: st.name.push(c), ..st }, None))
        } else if is_space(c) && st.name.len() > 0 {
            moving(st, Mode::CloseEnd)
        } else if c == '>' && st.name.len() > 0 {
            emitting(st, TagKind::Close)
        } else {
            None
        },
        Mode::CloseEnd => if is_space(c) {
            moving(st, Mode::CloseEnd)
        } else if c == '>' {
            emitting(st, TagKind::Close)
        } else {
            None
        },
    }
}

/// The tags of `s` from position `i` on, after `acc`, with the scanner in
/// state `st`; `None` where the text is not well-formed markup or ends
/// inside a tag.
pub open spec fn lex_from(s: Seq<char>, i: int, st: LexView, acc: Seq<TagView>) -> Option<
    Seq<TagView>,
>
    decreases s.len() - i,
{
    if i < 0 || i >= s.len() {
        if st.mode == Mode::Text {
            Some(acc)
        } else {
            None
        }
    } else {
        match lex_step(st, s[i]) {
            None => None,
            Some((st2, t)) => lex_from(
                s,
                i + 1,
                st2,
                match t {
                    Some(tv) => acc.push(tv),
                    None => acc,
                },
            ),
        }
    }
}

/// The tags of a document's text, in order.
pub open spec fn tags_of(s: Seq<char>) -> Option<Seq<TagView>> {
    lex_from(s, 0, idle(), Seq::empty())
}

fn is_space_exec(c: char) -> (r: bool)
    ensures
        r == is_space(c),
{
    c == ' ' || c == '\t' || c == '\n' || c == '\r'
}

fn is_name_char_exec(c: char) -> (r: bool)
    ensures
        r == is_name_char(c),
{
    !is_space_exec(c) && c != '<' && c != '>' && c != '/' && c != '=' && c != '?' && c != '!'
        && c != '"' && c != '\''
}

impl Lexer {
    fn new() -> (r: Lexer)
        ensures
            r@ == idle(),
    {
        let r = Lexer {
            mode: Mode::Text,
            quote: '"',
            sep: false,
            name: Vec::new(),
            attrs: Vec::new(),
            key: Vec::new(),
            value: Vec::new(),
        };
        assert(attrs_view(r.attrs@) =~= Seq::empty());
        r
    }

    fn emit(&mut self, kind: TagKind) -> (t: Tag)
        ensures
            final(self)@ == idle(),
            t@ == (TagView { kind, name: old(self)@.name, attrs: old(self)@.attrs }),
    {
        let name = string_of(self.name.as_slice());
        let mut fresh = Lexer::new();
        std::mem::swap(&mut fresh, self);
        Tag { kind, name, attrs: fresh.attrs }
    }

    fn step(&mut self, c: char) -> (r: Option<Option<Tag>>)
        ensures
            match lex_step(old(self)@, c) {
                None => r is None,
                Some((st2, t)) => r is Some && final(self)@ == st2 && match t {
                    None => r->Some_0 is None,
                    Some(tv) => r->Some_0 is Some && r->Some_0->Some_0@ == tv,
                },
            },
    {
        let ghost st = self@;
        match self.mode {
            Mode::Text => {
                if c == '<' {
                    self.mode = Mode::TagStart;
                }
                Some(None)
            },
            Mode::TagStart => {
                if c == '/' {
                    self.mode = Mode::CloseName;
                } else if c == '?' {
                    self.mode = Mode::Pi;
                } else if c == '!' {
                    self.mode = Mode::Bang0;
                } else if is_name_char_exec(c) {
                    self.mode = Mode::OpenName;
                    self.name.push(c);
                } else {
                    return None;
                }
                Some(None)
            },
            Mode::Pi => {
                if c == '?' {
                    self.mode = Mode::PiQ;
                }
                Some(None)
            },
            Mode::PiQ => {
                if c == '>' {
                    self.mode = Mode::Text;
                } else if c != '?' {
                    self.mode = Mode::Pi;
                }
                Some(None)
            },
            Mode::Bang0 => {
                if c == '-' {
                    self.mode = Mode::Bang1;
                } else if c == '>' {
                    self.mode = Mode::Text;
                } else {
                    self.mode = Mode::Decl;
                }
                Some(None)
            },
            Mode::Bang1 => {
                if c == '-' {
                    self.mode = Mode::Comment0;
                } else if c == '>' {
                    self.mode = Mode::Text;
                } else {
                    self.mode = Mode::Decl;
                }
                Some(None)
            },
            Mode::Decl => {
                if c == '>' {
                    self.mode = Mode::Text;
                }
                Some(None)
            },
            Mode::Comment0 => {
                if c == '-' {
                    self.mode = Mode::Comment1;
                }
                Some(None)
            },
            Mode::Comment1 => {
                if c == '-' {
                    self.mode = Mode::Comment2;
                } else {
                    self.mode = Mode::Comment0;
                }
                Some(None)
            },
            Mode::Comment2 => {
                if c == '>' {
                    self.mode = Mode::Text;
                } else if c != '-' {
                    self.mode = Mode::Comment0;
                }
                Some(None)
            },
            Mode::OpenName => {
                if is_name_char_exec(c) {
                    self.name.push(c);
                    Some(None)
                } else if is_space_exec(c) {
                    self.mode = Mode::InTag;
                    self.sep = true;
                    Some(None)
                } else if c == '>' {
                    Some(Some(self.emit(TagKind::Open)))
                } else if c == '/' {
                    self.mode = Mode::SelfClose;
                    Some(None)
                } else {
                    None
                }
            },
            Mode::InTag => {
                if is_space_exec(c) {
                    self.sep = true;
                    Some(None)
                } else if c == '>' {
                    Some(Some(self.emit(TagKind::Open)))
                } else if c == '/' {
                    self.mode = Mode::SelfClose;
                    Some(None)
                } else if is_name_char_exec(c) && self.sep {
                    self.mode = Mode::AttrName;
                    self.key = Vec::new();
                    self.key.push(c);
                    assert(self.key@ =~= seq![c]);
                    Some(None)
                } else {
                    None
                }
            },
            Mode::AttrName => {
                if is_name_char_exec(c) {
                    self.key.push(c);
                    Some(None)
                } else if is_space_exec(c) {
                    self.mode = Mode::AttrEq;
                    Some(None)
                } else if c == '=' {
                    self.mode = Mode::AttrValStart;
                    Some(None)
                } else {
                    None
                }
            },
            Mode::AttrEq => {
                if is_space_exec(c) {
                    Some(None)
                } else if c == '=' {
                    self.mode = Mode::AttrValStart;
                    Some(None)
                } else {
                    None
                }
            },
            Mode::AttrValStart => {
                if is_space_exec(c) {
                    Some(None)
                } else if c == '"' || c == '\'' {
                    self.mode = Mode::AttrVal;
                    self.quote = c;
                    self.value = Vec::new();
                    Some(None)
                } else {
                    None
                }
            },
            Mode::AttrVal => {
                if c == self.quote {
                    let raw = string_of(self.value.as_slice());
                    match unescape_value(raw.as_str()) {
                        Some(v) => {
                            let key = string_of(self.key.as_slice());
                            let a = Attr { key, value: v };
                            self.attrs.push(a);
                            assert(attrs_view(self.attrs@) =~= st.attrs.push((st.key, v@)));
                            self.mode = Mode::InTag;
                            self.sep = false;
                            Some(None)
                        },
                        None => None,
                    }
                } else if c == '<' {
                    None
                } else {
                    self.value.push(c);
                    Some(None)
                }
            },
            Mode::SelfClose => {
                if c == '>' {
                    Some(Some(self.emit(TagKind::Empty)))
                } else {
                    None
                }
            },
            Mode::CloseName => {
                if is_name_char_exec(c) {
                    self.name.push(c);
                    Some(None)
                } else if is_space_exec(c) && self.name.len() > 0 {
                    self.mode = Mode::CloseEnd;
                    Some(None)
                } else if c == '>' && self.name.len() > 0 {
                    Some(Some(self.emit(TagKind::Close)))
                } else {
                    None
                }
            },
            Mode::CloseEnd => {
                if is_space_exec(c) {
                    Some(None)
                } else if c == '>' {
                    Some(Some(self.emit(TagKind::Close)))
                } else {
                    None
                }
            },
        }
    }
}

/// Splits a document's text into its tags; `None` where it is not
/// well-formed markup.
pub fn tokenize(text: &str) -> (r: Option<Vec<Tag>>)
    ensures
        match r {
            Some(ts) => tags_of(text@) == Some(tags_view(ts@)),
            None => tags_of(text@).is_none(),
        },
{
    let cs = chars_of(text);
    let n = cs.len();
    let mut lx = Lexer::new();
    let mut out: Vec<Tag> = Vec::new();
    let mut i: usize = 0;
    assert(tags_view(out@) =~= Seq::<TagView>::empty());
    while i < n
        invariant
            n == cs@.len(),
            cs@ == text@,
            i <= n,
            tags_of(text@) == lex_from(text@, i as int, lx@, tags_view(out@)),
        decreases n - i,
    {
        let c = cs[i];
        let ghost st0 = lx@;
        let ghost out0 = tags_view(out@);
        match lx.step(c) {
            None => {
                return None;
            },
            Some(t) => {
                match t {
                    Some(tag) => {
                        out.push(tag);
                    },
                    None => {},
                }
            },
        }
        proof {
            assert(tags_view(out@) =~= match lex_step(st0, c) {
                Some((_, Some(tv))) => out0.push(tv),
                _ => out0,
            });
        }
        i = i + 1;
    }
    if lx.mode == Mode::Text {
        Some(out)
    } else {
        None
    }
}

} // verus!
