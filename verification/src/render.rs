//! Exact construction of the plaintext exposition format.
//!
//! Everything about the output is decided here except the decimal text of a
//! finite double, which no integer program can reproduce bit-for-bit.  The
//! renderers therefore emit a sequence of `Piece`s: literal text, and `Slot`s
//! naming the number whose decimal text the caller supplies.  `assemble`
//! splices the two together; every character around the slots is specified
//! and proved.
use vstd::prelude::*;

use crate::label::{Label, Labels};

verus! {

/// One term of a slot's numeric value.  The value of the slot is the
/// floating-point sum of its terms, folded left to right.
#[derive(Debug, Clone, Copy, PartialEq, Eq, Structural)]
pub enum Term {
    /// An exact non-negative integer.
    Whole(u64),
    /// A double given by its IEEE-754 bit pattern.
    Bits(u64),
}

/// One piece of rendered output.
pub enum Piece {
    /// Literal text.
    Text(String),
    /// A numeric value whose decimal text the caller supplies.
    Slot(Vec<Term>),
}

/// The view of a piece.
#[verifier::ext_equal]
pub ghost enum PieceV {
    /// Literal text.
    Text(Seq<char>),
    /// A numeric slot.
    Slot(Seq<Term>),
}

impl Piece {
    /// The view of this piece.
    pub open spec fn view(&self) -> PieceV {
        match self {
            Piece::Text(s) => PieceV::Text(s@),
            Piece::Slot(v) => PieceV::Slot(v@),
        }
    }
}

/// The views of a piece sequence.
pub open spec fn pieces_view(ps: Seq<Piece>) -> Seq<PieceV> {
    ps.map_values(|p: Piece| p.view())
}

/// How many slots a piece sequence holds.
pub open spec fn slot_count(ps: Seq<PieceV>) -> nat
    decreases ps.len(),
{
    if ps.len() == 0 {
        0
    } else {
        (match ps[0] {
            PieceV::Slot(_) => 1 as nat,
            PieceV::Text(_) => 0 as nat,
        }) + slot_count(ps.drop_first())
    }
}

/// The full output: the pieces' text with the slot texts spliced in order.
pub open spec fn assemble_view(ps: Seq<PieceV>, texts: Seq<Seq<char>>) -> Seq<char>
    decreases ps.len(),
{
    if ps.len() == 0 {
        Seq::empty()
    } else {
        match ps[0] {
            PieceV::Text(t) => t + assemble_view(ps.drop_first(), texts),
            PieceV::Slot(_) => {
                if texts.len() > 0 {
                    texts[0] + assemble_view(ps.drop_first(), texts.drop_first())
                } else {
                    assemble_view(ps.drop_first(), texts)
                }
            },
        }
    }
}

/// Slot counts add over concatenation's split point.
proof fn lemma_slot_count_skip(ps: Seq<PieceV>, i: int)
    requires
        0 <= i < ps.len(),
    ensures
        slot_count(ps.skip(i)) == (match ps[i] {
            PieceV::Slot(_) => 1 as nat,
            PieceV::Text(_) => 0 as nat,
        }) + slot_count(ps.skip(i + 1)),
{
    assert(ps.skip(i)[0] == ps[i]);
    assert(ps.skip(i).drop_first() =~= ps.skip(i + 1));
}

/// Unfolds the assembly at the split point `i`.
proof fn lemma_assemble_skip(ps: Seq<PieceV>, texts: Seq<Seq<char>>, i: int, t: int)
    requires
        0 <= i < ps.len(),
        0 <= t,
    ensures
        (match ps[i] {
            PieceV::Text(txt) => assemble_view(ps.skip(i), texts.skip(t)) == txt + assemble_view(
                ps.skip(i + 1),
                texts.skip(t),
            ),
            PieceV::Slot(_) => t < texts.len() ==> assemble_view(ps.skip(i), texts.skip(t))
                == texts[t] + assemble_view(ps.skip(i + 1), texts.skip(t + 1)),
        }),
{
    assert(ps.skip(i)[0] == ps[i]);
    assert(ps.skip(i).drop_first() =~= ps.skip(i + 1));
    if t < texts.len() {
        assert(texts.skip(t)[0] == texts[t]);
        assert(texts.skip(t).drop_first() =~= texts.skip(t + 1));
    }
}

/// Splices caller-supplied slot texts into the pieces.
pub fn assemble(pieces: &Vec<Piece>, texts: &Vec<String>) -> (r: String)
    requires
        texts@.len() == slot_count(pieces_view(pieces@)),
    ensures
        r@ == assemble_view(pieces_view(pieces@), texts@.map_values(|s: String| s@)),
{
    let ghost pv = pieces_view(pieces@);
    let ghost tv = texts@.map_values(|s: String| s@);
    let tlen = texts.len();
    let mut out = String::new();
    let mut i: usize = 0;
    let mut t: usize = 0;
    proof {
        assert(pv.skip(0) =~= pv);
        assert(tv.skip(0) =~= tv);
        assert(out@ + assemble_view(pv, tv) =~= assemble_view(pv, tv));
    }
    while i < pieces.len()
        invariant
            0 <= i <= pieces@.len(),
            0 <= t <= tv.len(),
            pv == pieces_view(pieces@),
            tv == texts@.map_values(|s: String| s@),
            pv.len() == pieces@.len(),
            tv.len() == texts@.len(),
            tlen == texts@.len(),
            slot_count(pv.skip(i as int)) == tv.len() - t,
            out@ + assemble_view(pv.skip(i as int), tv.skip(t as int)) == assemble_view(pv, tv),
        decreases pieces@.len() - i,
    {
        proof {
            lemma_slot_count_skip(pv, i as int);
            lemma_assemble_skip(pv, texts@.map_values(|s: String| s@), i as int, t as int);
            assert(pv[i as int] == pieces@[i as int].view());
        }
        match &pieces[i] {
            Piece::Text(s) => {
                out.append(s.as_str());
            },
            Piece::Slot(_) => {
                proof {
                    assert(slot_count(pv.skip(i as int)) >= 1);
                    assert(t < tlen);
                    assert(tv[t as int] == texts@[t as int]@);
                }
                out.append(texts[t].as_str());
                t = t + 1;
            },
        }
        i = i + 1;
    }
    proof {
        assert(pv.skip(pieces@.len() as int) =~= Seq::<PieceV>::empty());
        assert(out@ + Seq::<char>::empty() =~= out@);
    }
    out
}

/// Relies on String::push: appends exactly the one character.
#[verifier::external_body]
pub(crate) fn push_char(s: &mut String, c: char)
    ensures
        final(s)@ == old(s)@.push(c),
{
    s.push(c);
}

/// The ten decimal digit characters.
pub open spec fn digit_char(d: int) -> char {
    seq!['0', '1', '2', '3', '4', '5', '6', '7', '8', '9'][d]
}

/// The decimal digits of `n`, most significant first.
pub open spec fn u64_dec(n: nat) -> Seq<char>
    decreases n,
{
    if n < 10 {
        seq![digit_char(n as int)]
    } else {
        u64_dec(n / 10) + seq![digit_char((n % 10) as int)]
    }
}

/// The decimal text of `n`: a minus sign for negatives, then the digits.
pub open spec fn i64_dec(n: int) -> Seq<char> {
    if n < 0 {
        seq!['-'] + u64_dec((-n) as nat)
    } else {
        u64_dec(n as nat)
    }
}

/// The character of the decimal digit `d`.
fn digit_char_of(d: u64) -> (r: char)
    requires
        d < 10,
    ensures
        r == digit_char(d as int),
{
    match d {
        0 => '0',
        1 => '1',
        2 => '2',
        3 => '3',
        4 => '4',
        5 => '5',
        6 => '6',
        7 => '7',
        8 => '8',
        _ => '9',
    }
}

/// Renders `n` in decimal.
pub fn u64_to_dec(n: u64) -> (r: String)
    ensures
        r@ == u64_dec(n as nat),
    decreases n,
{
    if n < 10 {
        let mut s = String::new();
        push_char(&mut s, digit_char_of(n));
        proof {
            assert(s@ =~= u64_dec(n as nat));
        }
        s
    } else {
        let mut s = u64_to_dec(n / 10);
        push_char(&mut s, digit_char_of(n % 10));
        proof {
            assert(s@ =~= u64_dec(n as nat));
        }
        s
    }
}

/// Renders `n` in decimal, with a sign when negative.
pub fn i64_to_dec(n: i64) -> (r: String)
    ensures
        r@ == i64_dec(n as int),
{
    if n >= 0 {
        u64_to_dec(n as u64)
    } else {
        let mag: u64 = (-(n as i128)) as u64;
        let mut s = String::new();
        push_char(&mut s, '-');
        let digits = u64_to_dec(mag);
        s.append(digits.as_str());
        proof {
            assert(s@ =~= i64_dec(n as int));
        }
        s
    }
}

/// How one character of a label value is escaped: a backslash, a newline and
/// a double quote get a backslash escape; everything else stands as itself.
pub open spec fn escape_label_char(c: char) -> Seq<char> {
    if c == '\\' {
        seq!['\\', '\\']
    } else if c == '\n' {
        seq!['\\', 'n']
    } else if c == '"' {
        seq!['\\', '"']
    } else {
        seq![c]
    }
}

/// The escaped form of a label value.
pub open spec fn escape_label_value(s: Seq<char>) -> Seq<char>
    decreases s.len(),
{
    if s.len() == 0 {
        Seq::empty()
    } else {
        escape_label_char(s[0]) + escape_label_value(s.drop_first())
    }
}

/// How one character of a help text is escaped: a backslash and a newline
/// get a backslash escape; everything else stands as itself.
pub open spec fn escape_help_char(c: char) -> Seq<char> {
    if c == '\\' {
        seq!['\\', '\\']
    } else if c == '\n' {
        seq!['\\', 'n']
    } else {
        seq![c]
    }
}

/// The escaped form of a help text.
pub open spec fn escape_help(s: Seq<char>) -> Seq<char>
    decreases s.len(),
{
    if s.len() == 0 {
        Seq::empty()
    } else {
        escape_help_char(s[0]) + escape_help(s.drop_first())
    }
}

/// Escaping distributes over appending one character.
proof fn lemma_escape_label_snoc(s: Seq<char>, c: char)
    ensures
        escape_label_value(s.push(c)) == escape_label_value(s) + escape_label_char(c),
    decreases s.len(),
{
    assert(s.push(c)[0] == if s.len() == 0 { c } else { s[0] });
    if s.len() == 0 {
        assert(s.push(c).drop_first() =~= Seq::<char>::empty());
        assert(escape_label_value(s.push(c)) == escape_label_char(c) + escape_label_value(
            s.push(c).drop_first(),
        ));
        assert(escape_label_value(Seq::<char>::empty()) == Seq::<char>::empty());
        assert(escape_label_value(s.push(c)) =~= escape_label_value(s) + escape_label_char(c));
    } else {
        assert(s.push(c).drop_first() =~= s.drop_first().push(c));
        lemma_escape_label_snoc(s.drop_first(), c);
        let h = escape_label_char(s[0]);
        let a = escape_label_value(s.drop_first());
        let b = escape_label_char(c);
        assert(escape_label_value(s.push(c)) == h + (a + b));
        assert(h + (a + b) =~= (h + a) + b);
        assert(escape_label_value(s) == h + a);
    }
}

/// Escaping distributes over appending one character.
proof fn lemma_escape_help_snoc(s: Seq<char>, c: char)
    ensures
        escape_help(s.push(c)) == escape_help(s) + escape_help_char(c),
    decreases s.len(),
{
    assert(s.push(c)[0] == if s.len() == 0 { c } else { s[0] });
    if s.len() == 0 {
        assert(s.push(c).drop_first() =~= Seq::<char>::empty());
        assert(escape_help(s.push(c)) == escape_help_char(c) + escape_help(
            s.push(c).drop_first(),
        ));
        assert(escape_help(Seq::<char>::empty()) == Seq::<char>::empty());
        assert(escape_help(s.push(c)) =~= escape_help(s) + escape_help_char(c));
    } else {
        assert(s.push(c).drop_first() =~= s.drop_first().push(c));
        lemma_escape_help_snoc(s.drop_first(), c);
        let h = escape_help_char(s[0]);
        let a = escape_help(s.drop_first());
        let b = escape_help_char(c);
        assert(escape_help(s.push(c)) == h + (a + b));
        assert(h + (a + b) =~= (h + a) + b);
        assert(escape_help(s) == h + a);
    }
}

/// Appends the escaped label value `v` to `out`.
pub fn append_escaped_label_value(out: &mut String, v: &str)
    ensures
        final(out)@ == old(out)@ + escape_label_value(v@),
{
    let len = v.unicode_len();
    let mut i: usize = 0;
    while i < len
        invariant
            i <= len,
            len == v@.len(),
            out@ == old(out)@ + escape_label_value(v@.take(i as int)),
        decreases len - i,
    {
        let c = v.get_char(i);
        proof {
            lemma_escape_label_snoc(v@.take(i as int), c);
            assert(v@.take(i as int).push(c) =~= v@.take(i as int + 1));
        }
        if c == '\\' {
            push_char(out, '\\');
            push_char(out, '\\');
        } else if c == '\n' {
            push_char(out, '\\');
            push_char(out, 'n');
        } else if c == '"' {
            push_char(out, '\\');
            push_char(out, '"');
        } else {
            push_char(out, c);
        }
        proof {
            assert(out@ =~= old(out)@ + escape_label_value(v@.take(i as int + 1)));
        }
        i = i + 1;
    }
    proof {
        assert(v@.take(len as int) =~= v@);
    }
}

/// Appends the escaped help text `h` to `out`.
pub fn append_escaped_help(out: &mut String, h: &str)
    ensures
        final(out)@ == old(out)@ + escape_help(h@),
{
    let len = h.unicode_len();
    let mut i: usize = 0;
    while i < len
        invariant
            i <= len,
            len == h@.len(),
            out@ == old(out)@ + escape_help(h@.take(i as int)),
        decreases len - i,
    {
        let c = h.get_char(i);
        proof {
            lemma_escape_help_snoc(h@.take(i as int), c);
            assert(h@.take(i as int).push(c) =~= h@.take(i as int + 1));
        }
        if c == '\\' {
            push_char(out, '\\');
            push_char(out, '\\');
        } else if c == '\n' {
            push_char(out, '\\');
            push_char(out, 'n');
        } else {
            push_char(out, c);
        }
        proof {
            assert(out@ =~= old(out)@ + escape_help(h@.take(i as int + 1)));
        }
        i = i + 1;
    }
    proof {
        assert(h@.take(len as int) =~= h@);
    }
}


/// The rendered form of one label: `name="escaped value"`.
pub open spec fn label_pair_view(l: Label) -> Seq<char> {
    l.name@ + seq!['=', '"'] + escape_label_value(l.value@) + seq!['"']
}

/// The rendered labels, comma-separated.
pub open spec fn labels_inner_view(s: Seq<Label>) -> Seq<char>
    decreases s.len(),
{
    if s.len() == 0 {
        Seq::empty()
    } else if s.len() == 1 {
        label_pair_view(s[0])
    } else {
        labels_inner_view(s.drop_last()) + seq![','] + label_pair_view(s.last())
    }
}

/// The braced label block, empty when there are no labels.
pub open spec fn labels_block_view(s: Seq<Label>) -> Seq<char> {
    if s.len() == 0 {
        Seq::empty()
    } else {
        seq!['{'] + labels_inner_view(s) + seq!['}']
    }
}

/// The labels as a suffix inside an already-open brace: a leading comma
/// before each pair.
pub open spec fn label_suffix_view(s: Seq<Label>) -> Seq<char>
    decreases s.len(),
{
    if s.len() == 0 {
        Seq::empty()
    } else {
        label_suffix_view(s.drop_last()) + seq![','] + label_pair_view(s.last())
    }
}

/// The timestamp suffix of a sample line: empty, or a space and the
/// millisecond value.
pub open spec fn ts_suffix_view(ts: Option<i64>) -> Seq<char> {
    match ts {
        Option::Some(t) => seq![' '] + i64_dec(t as int),
        Option::None => Seq::empty(),
    }
}

/// Appends one rendered label pair to `out`.
fn append_label_pair(out: &mut String, l: &Label)
    ensures
        final(out)@ == old(out)@ + label_pair_view(*l),
{
    out.append(l.name.as_str());
    push_char(out, '=');
    push_char(out, '"');
    append_escaped_label_value(out, l.value.as_str());
    push_char(out, '"');
    proof {
        assert(out@ =~= old(out)@ + label_pair_view(*l));
    }
}

/// Renders the braced label block of a label map.
pub fn labels_block(ls: &Labels) -> (r: String)
    ensures
        r@ == labels_block_view(ls.entries@),
{
    let mut out = String::new();
    if ls.entries.len() == 0 {
        proof {
            assert(out@ =~= labels_block_view(ls.entries@));
        }
        return out;
    }
    push_char(&mut out, '{');
    let mut i: usize = 0;
    while i < ls.entries.len()
        invariant
            i <= ls.entries@.len(),
            ls.entries@.len() > 0,
            out@ == seq!['{'] + labels_inner_view(ls.entries@.take(i as int)),
        decreases ls.entries@.len() - i,
    {
        proof {
            assert(ls.entries@.take(i as int + 1).drop_last() =~= ls.entries@.take(i as int));
            assert(ls.entries@.take(i as int + 1).last() == ls.entries@[i as int]);
        }
        if i > 0 {
            push_char(&mut out, ',');
        }
        append_label_pair(&mut out, &ls.entries[i]);
        proof {
            assert(out@ =~= seq!['{'] + labels_inner_view(ls.entries@.take(i as int + 1)));
        }
        i = i + 1;
    }
    push_char(&mut out, '}');
    proof {
        assert(ls.entries@.take(ls.entries@.len() as int) =~= ls.entries@);
        assert(out@ =~= labels_block_view(ls.entries@));
    }
    out
}

/// Renders the labels as a suffix inside an already-open brace.
pub fn label_suffix(ls: &Labels) -> (r: String)
    ensures
        r@ == label_suffix_view(ls.entries@),
{
    let mut out = String::new();
    let mut i: usize = 0;
    proof {
        assert(out@ =~= label_suffix_view(ls.entries@.take(0)));
    }
    while i < ls.entries.len()
        invariant
            i <= ls.entries@.len(),
            out@ == label_suffix_view(ls.entries@.take(i as int)),
        decreases ls.entries@.len() - i,
    {
        proof {
            assert(ls.entries@.take(i as int + 1).drop_last() =~= ls.entries@.take(i as int));
            assert(ls.entries@.take(i as int + 1).last() == ls.entries@[i as int]);
        }
        push_char(&mut out, ',');
        append_label_pair(&mut out, &ls.entries[i]);
        proof {
            assert(out@ =~= label_suffix_view(ls.entries@.take(i as int + 1)));
        }
        i = i + 1;
    }
    proof {
        assert(ls.entries@.take(ls.entries@.len() as int) =~= ls.entries@);
    }
    out
}

/// Renders the timestamp suffix of a sample line.
pub fn ts_text(ts: &Option<i64>) -> (r: String)
    ensures
        r@ == ts_suffix_view(*ts),
{
    match ts {
        Some(t) => {
            let mut out = String::new();
            push_char(&mut out, ' ');
            let d = i64_to_dec(*t);
            out.append(d.as_str());
            proof {
                assert(out@ =~= ts_suffix_view(*ts));
            }
            out
        },
        None => String::new(),
    }
}


/// Appends a text piece.
pub fn push_text(out: &mut Vec<Piece>, s: String)
    ensures
        pieces_view(final(out)@) == pieces_view(old(out)@).push(PieceV::Text(s@)),
{
    let ghost pre = out@;
    out.push(Piece::Text(s));
    proof {
        assert(pieces_view(out@) =~= pieces_view(pre).push(PieceV::Text(s@)));
    }
}

/// Appends a slot piece.
pub fn push_slot(out: &mut Vec<Piece>, terms: Vec<Term>)
    ensures
        pieces_view(final(out)@) == pieces_view(old(out)@).push(PieceV::Slot(terms@)),
{
    let ghost pre = out@;
    let ghost tv = terms@;
    out.push(Piece::Slot(terms));
    proof {
        assert(pieces_view(out@) =~= pieces_view(pre).push(PieceV::Slot(tv)));
    }
}

/// Counts the slots of a piece list.
pub fn slot_total(pieces: &Vec<Piece>) -> (r: usize)
    requires
        slot_count(pieces_view(pieces@)) <= usize::MAX,
    ensures
        r == slot_count(pieces_view(pieces@)),
{
    let ghost pv = pieces_view(pieces@);
    let mut n: usize = 0;
    let mut i: usize = 0;
    proof {
        assert(pv.skip(0) =~= pv);
    }
    while i < pieces.len()
        invariant
            i <= pieces@.len(),
            pv == pieces_view(pieces@),
            pv.len() == pieces@.len(),
            n + slot_count(pv.skip(i as int)) == slot_count(pv),
            slot_count(pv) <= usize::MAX,
        decreases pieces@.len() - i,
    {
        proof {
            lemma_slot_count_skip(pv, i as int);
            assert(pv[i as int] == pieces@[i as int].view());
        }
        match &pieces[i] {
            Piece::Slot(_) => {
                n = n + 1;
            },
            Piece::Text(_) => {
            },
        }
        i = i + 1;
    }
    proof {
        assert(pv.skip(pieces@.len() as int) =~= Seq::<PieceV>::empty());
    }
    n
}

} // verus!
