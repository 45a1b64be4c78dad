//! The closed set of literal values the grammar can produce, together with
//! its specification-level model.
//!
//! Numeric literals with a decimal point are kept in their textual form: a
//! [`FloatLit`] holds the decimal digits exactly as they stood in the input
//! (an integral component of a `Vector2`, `Rect2` or `Color` is normalized
//! to float form by appending `.0`).  This keeps the full precision of the
//! source text and gives the parser an exact, machine-checkable meaning.

use vstd::prelude::*;

verus! {

/// A float literal in decimal text form, e.g. `-118.0` or `0.5`.
#[derive(Debug, PartialEq, Eq)]
pub struct FloatLit {
    pub text: String,
}

/// The digits of `s` with an optional leading `-` stripped.
pub open spec fn float_tail(s: Seq<char>) -> Seq<char> {
    if s.len() > 0 && s[0] == '-' {
        s.subrange(1, s.len() as int)
    } else {
        s
    }
}

/// A well-formed float lexeme: an optional leading `-`, then digits with
/// exactly one `.` among them and at least one digit.
pub open spec fn wf_float_chars(s: Seq<char>) -> bool {
    let t = float_tail(s);
    &&& t.len() >= 2
    &&& exists|i: int|
        0 <= i < t.len() && t[i] == '.' && (forall|j: int|
            0 <= j < t.len() && j != i ==> crate::text::is_digit(t[j]))
}

impl FloatLit {
    /// Well-formedness: the text is a parseable float lexeme.
    pub open spec fn wf(&self) -> bool {
        wf_float_chars(self.text@)
    }
}

/// One `"key": value` pair of a `Dictionary` literal.
#[derive(Debug, PartialEq, Eq)]
pub struct DictEntry {
    pub key: String,
    pub value: GodotValue,
}

/// One parsed literal.  `Array` and `Dictionary` nest recursively.
#[derive(Debug, PartialEq, Eq)]
pub enum GodotValue {
    String(String),
    Integer(i64),
    Float(FloatLit),
    Boolean(bool),
    PackedStringArray(Vec<String>),
    NodePath(String),
    Vector2(FloatLit, FloatLit),
    Rect2(FloatLit, FloatLit, FloatLit, FloatLit),
    Color(FloatLit, FloatLit, FloatLit, FloatLit),
    ExtResourceLink(String),
    SubResourceLink(String),
    Array(Vec<GodotValue>),
    Dictionary(Vec<DictEntry>),
}

/// The mathematical model of a [`GodotValue`]: strings become sequences of
/// characters, float literals their lexeme, and the composites sequences of
/// models.
pub enum Val {
    VStr(Seq<char>),
    VInt(i64),
    VFloat(Seq<char>),
    VBool(bool),
    VPsa(Seq<Seq<char>>),
    VNodePath(Seq<char>),
    VVec2(Seq<char>, Seq<char>),
    VRect2(Seq<char>, Seq<char>, Seq<char>, Seq<char>),
    VColor(Seq<char>, Seq<char>, Seq<char>, Seq<char>),
    VExtRes(Seq<char>),
    VSubRes(Seq<char>),
    VArr(Seq<Val>),
    VDict(Seq<(Seq<char>, Val)>),
}

impl View for GodotValue {
    type V = Val;

    open spec fn view(&self) -> Val
        decreases self, 1int,
    {
        match self {
            GodotValue::String(s) => Val::VStr(s@),
            GodotValue::Integer(i) => Val::VInt(*i),
            GodotValue::Float(f) => Val::VFloat(f.text@),
            GodotValue::Boolean(b) => Val::VBool(*b),
            GodotValue::PackedStringArray(v) => Val::VPsa(v.deep_view()),
            GodotValue::NodePath(s) => Val::VNodePath(s@),
            GodotValue::Vector2(a, b) => Val::VVec2(a.text@, b.text@),
            GodotValue::Rect2(a, b, c, d) => Val::VRect2(a.text@, b.text@, c.text@, d.text@),
            GodotValue::Color(a, b, c, d) => Val::VColor(a.text@, b.text@, c.text@, d.text@),
            GodotValue::ExtResourceLink(s) => Val::VExtRes(s@),
            GodotValue::SubResourceLink(s) => Val::VSubRes(s@),
            GodotValue::Array(vs) => Val::VArr(views_of(vs@)),
            GodotValue::Dictionary(ps) => Val::VDict(entries_of(ps@)),
        }
    }
}

/// The models of a sequence of values.
pub open spec fn views_of(gs: Seq<GodotValue>) -> Seq<Val>
    decreases gs, 0int,
{
    if gs.len() == 0 {
        Seq::empty()
    } else {
        seq![gs[0]@] + views_of(gs.drop_first())
    }
}

/// The models of a sequence of dictionary entries.
pub open spec fn entries_of(ps: Seq<DictEntry>) -> Seq<(Seq<char>, Val)>
    decreases ps, 0int,
{
    if ps.len() == 0 {
        Seq::empty()
    } else {
        seq![(ps[0].key@, ps[0].value@)] + entries_of(ps.drop_first())
    }
}

impl View for FloatLit {
    type V = Seq<char>;

    open spec fn view(&self) -> Seq<char> {
        self.text@
    }
}

impl DeepView for FloatLit {
    type V = Seq<char>;

    open spec fn deep_view(&self) -> Seq<char> {
        self.text@
    }
}

/// Content a quoted string literal can produce: the only escape the grammar
/// knows is `\"`, so an unescaped result never contains a backslash.
pub open spec fn wf_qstr(s: Seq<char>) -> bool {
    forall|i: int| 0 <= i < s.len() ==> s[i] != '\\'
}

/// A resource / node-path identifier: non-empty and free of `"`.
pub open spec fn wf_id(s: Seq<char>) -> bool {
    s.len() >= 1 && forall|i: int| 0 <= i < s.len() ==> s[i] != '"'
}

/// Well-formedness of a model value: every value the parser can produce
/// satisfies this, and every value satisfying it has a parseable rendering.
pub open spec fn wf_val(v: Val) -> bool
    decreases v,
{
    match v {
        Val::VStr(s) => wf_qstr(s),
        Val::VInt(_) => true,
        Val::VFloat(t) => wf_float_chars(t),
        Val::VBool(_) => true,
        Val::VPsa(es) => forall|i: int| 0 <= i < es.len() ==> wf_qstr(#[trigger] es[i]),
        Val::VNodePath(s) => wf_id(s),
        Val::VVec2(a, b) => wf_float_chars(a) && wf_float_chars(b),
        Val::VRect2(a, b, c, d) => wf_float_chars(a) && wf_float_chars(b) && wf_float_chars(c)
            && wf_float_chars(d),
        Val::VColor(a, b, c, d) => wf_float_chars(a) && wf_float_chars(b) && wf_float_chars(c)
            && wf_float_chars(d),
        Val::VExtRes(s) => wf_id(s),
        Val::VSubRes(s) => wf_id(s),
        Val::VArr(vs) => forall|i: int| 0 <= i < vs.len() ==> wf_val(#[trigger] vs[i]),
        Val::VDict(ps) => forall|i: int|
            0 <= i < ps.len() ==> wf_qstr(#[trigger] ps[i].0) && wf_val(ps[i].1),
    }
}

/// `s` with every `"` replaced by `\"`: the inverse of unescaping.
pub open spec fn escape(s: Seq<char>) -> Seq<char>
    decreases s.len(),
{
    if s.len() == 0 {
        Seq::empty()
    } else if s[0] == '"' {
        seq!['\\', '"'] + escape(s.drop_first())
    } else {
        seq![s[0]] + escape(s.drop_first())
    }
}

/// A quoted string literal: `"` + escaped content + `"`.
pub open spec fn quoted(s: Seq<char>) -> Seq<char> {
    seq!['"'] + escape(s) + seq!['"']
}

/// Decimal digits of a natural number, most significant first.
pub open spec fn dec_chars(n: nat) -> Seq<char>
    decreases n,
{
    if n < 10 {
        seq![digit_char(n)]
    } else {
        dec_chars(n / 10) + seq![digit_char(n % 10)]
    }
}

/// The digit character for `n < 10`.
pub open spec fn digit_char(n: nat) -> char {
    if n == 0 {
        '0'
    } else if n == 1 {
        '1'
    } else if n == 2 {
        '2'
    } else if n == 3 {
        '3'
    } else if n == 4 {
        '4'
    } else if n == 5 {
        '5'
    } else if n == 6 {
        '6'
    } else if n == 7 {
        '7'
    } else if n == 8 {
        '8'
    } else {
        '9'
    }
}

/// Decimal rendering of an integer, with a `-` sign when negative.
pub open spec fn int_chars(n: int) -> Seq<char> {
    if n < 0 {
        seq!['-'] + dec_chars((-n) as nat)
    } else {
        dec_chars(n as nat)
    }
}

/// The canonical literal form of a value: parsing it yields the value back.
pub open spec fn render(v: Val) -> Seq<char>
    decreases v, 1int,
{
    match v {
        Val::VStr(s) => quoted(s),
        Val::VInt(i) => int_chars(i as int),
        Val::VFloat(t) => t,
        Val::VBool(b) => if b {
            seq!['t', 'r', 'u', 'e']
        } else {
            seq!['f', 'a', 'l', 's', 'e']
        },
        Val::VPsa(es) => psa_open() + render_strs(es) + seq![')'],
        Val::VNodePath(s) => node_path_open() + s + seq!['"', ')'],
        Val::VVec2(a, b) => vector2_open() + a + seq![',', ' '] + b + seq![')'],
        Val::VRect2(a, b, c, d) => rect2_open() + a + seq![',', ' '] + b + seq![',', ' '] + c
            + seq![',', ' '] + d + seq![')'],
        Val::VColor(a, b, c, d) => color_open() + a + seq![',', ' '] + b + seq![',', ' '] + c
            + seq![',', ' '] + d + seq![')'],
        Val::VExtRes(s) => ext_resource_open() + s + seq!['"', ')'],
        Val::VSubRes(s) => sub_resource_open() + s + seq!['"', ')'],
        Val::VArr(vs) => seq!['['] + render_vals(vs) + seq![']'],
        Val::VDict(ps) => seq!['{', '\n'] + render_pairs(ps) + seq!['\n', '}'],
    }
}

/// Comma-space-joined quoted strings (`PackedStringArray` elements).
pub open spec fn render_strs(es: Seq<Seq<char>>) -> Seq<char>
    decreases es.len(),
{
    if es.len() == 0 {
        Seq::empty()
    } else if es.len() == 1 {
        quoted(es[0])
    } else {
        quoted(es[0]) + seq![',', ' '] + render_strs(es.drop_first())
    }
}

/// Comma-space-joined renderings (`Array` elements).
pub open spec fn render_vals(vs: Seq<Val>) -> Seq<char>
    decreases vs, 2int,
{
    if vs.len() == 0 {
        Seq::empty()
    } else if vs.len() == 1 {
        render(vs[0])
    } else {
        render(vs[0]) + seq![',', ' '] + render_vals(vs.drop_first())
    }
}

/// Newline-comma-joined `"key": value` pairs (`Dictionary` entries).
pub open spec fn render_pairs(ps: Seq<(Seq<char>, Val)>) -> Seq<char>
    decreases ps, 2int,
{
    if ps.len() == 0 {
        Seq::empty()
    } else if ps.len() == 1 {
        render_pair(ps[0])
    } else {
        render_pair(ps[0]) + seq![',', '\n'] + render_pairs(ps.drop_first())
    }
}

/// One `"key": value` pair.
pub open spec fn render_pair(p: (Seq<char>, Val)) -> Seq<char>
    decreases p, 1int,
{
    quoted(p.0) + seq![':', ' '] + render(p.1)
}

/// `PackedStringArray(`
pub open spec fn psa_open() -> Seq<char> {
    seq!['P', 'a', 'c', 'k', 'e', 'd', 'S', 't', 'r', 'i', 'n', 'g', 'A', 'r', 'r', 'a', 'y', '(']
}

/// `NodePath("`
pub open spec fn node_path_open() -> Seq<char> {
    seq!['N', 'o', 'd', 'e', 'P', 'a', 't', 'h', '(', '"']
}

/// `Vector2(`
pub open spec fn vector2_open() -> Seq<char> {
    seq!['V', 'e', 'c', 't', 'o', 'r', '2', '(']
}

/// `Rect2(`
pub open spec fn rect2_open() -> Seq<char> {
    seq!['R', 'e', 'c', 't', '2', '(']
}

/// `Color(`
pub open spec fn color_open() -> Seq<char> {
    seq!['C', 'o', 'l', 'o', 'r', '(']
}

/// `ExtResource("`
pub open spec fn ext_resource_open() -> Seq<char> {
    seq!['E', 'x', 't', 'R', 'e', 's', 'o', 'u', 'r', 'c', 'e', '(', '"']
}

/// `SubResource("`
pub open spec fn sub_resource_open() -> Seq<char> {
    seq!['S', 'u', 'b', 'R', 'e', 's', 'o', 'u', 'r', 'c', 'e', '(', '"']
}

} // verus!

