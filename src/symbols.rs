use vstd::prelude::*;
use crate::classify::{table_view, Binding, Symbol};

verus! {

/// What `String::from_utf8` gives for `bytes`: the text, or `None` when the
/// bytes are not valid UTF-8.
pub uninterp spec fn utf8_decoded(bytes: Seq<u8>) -> Option<Seq<char>>;

/// Relies on `String::from_utf8`: it decodes valid UTF-8 and rejects
/// anything else, depending on the bytes alone.
#[verifier::external_body]
pub(crate) fn decode_utf8(bytes: Vec<u8>) -> (r: Option<String>)
    ensures
        match r {
            Some(s) => utf8_decoded(bytes@) == Some(s@),
            None => utf8_decoded(bytes@) is None,
        },
{
    String::from_utf8(bytes).ok()
}

/// The position of the first `b` in `s`, or `s.len()` when there is none.
pub open spec fn index_of(s: Seq<u8>, b: u8) -> nat
    decreases s.len(),
{
    if s.len() == 0 {
        0
    } else if s[0] == b {
        0
    } else {
        1 + index_of(s.drop_first(), b)
    }
}

pub(crate) proof fn lemma_index_of(s: Seq<u8>, b: u8, k: int)
    requires
        0 <= k <= s.len(),
        forall|j: int| 0 <= j < k ==> s[j] != b,
        k == s.len() || s[k] == b,
    ensures
        index_of(s, b) == k,
    decreases k,
{
    if k > 0 {
        lemma_index_of(s.drop_first(), b, k - 1);
    }
}

/// The binding a `nm` type letter stands for, when it is a symbol that other
/// objects can see.
pub open spec fn binding_of_letter(c: u8) -> Binding {
    if c == 0x57 || c == 0x56 || c == 0x77 || c == 0x76 {
        Binding::Weak
    } else if 0x41 <= c <= 0x5a {
        Binding::Global
    } else {
        Binding::Local
    }
}

/// Whether a `nm` type letter marks a symbol defined in the object: all
/// letters but `U` (undefined) and `w`, `v` (undefined weak).
pub open spec fn defined_letter(c: u8) -> bool {
    c != 0x55 && c != 0x77 && c != 0x76
}

/// The name and type letter of one line of `nm -P` output: the name runs up
/// to the first space, and a one-letter type follows it, alone or before
/// another space. Other lines describe no symbol.
pub open spec fn line_fields(line: Seq<u8>) -> Option<(Seq<u8>, u8)> {
    let n = index_of(line, 0x20) as int;
    if 0 < n && n + 1 < line.len() && (n + 2 == line.len() || line[n + 2] == 0x20) {
        Some((line.take(n), line[n + 1]))
    } else {
        None
    }
}

/// The symbol one line of `nm -P` output describes, if any (a name that is
/// not UTF-8 describes none).
pub open spec fn line_symbol(line: Seq<u8>) -> Option<(Seq<char>, Binding, bool)> {
    match line_fields(line) {
        Some((name, c)) => match utf8_decoded(name) {
            Some(text) => Some((text, binding_of_letter(c), defined_letter(c))),
            None => None,
        },
        None => None,
    }
}

/// The symbols described by `nm -P` output, line by line.
pub open spec fn nm_symbols(out: Seq<u8>) -> Seq<(Seq<char>, Binding, bool)>
    decreases out.len(),
{
    if out.len() == 0 {
        Seq::empty()
    } else {
        let k = index_of(out, 0x0a) as int;
        let head = match line_symbol(out.take(k)) {
            Some(s) => seq![s],
            None => Seq::empty(),
        };
        if k < out.len() {
            head + nm_symbols(out.skip(k + 1))
        } else {
            head
        }
    }
}

pub(crate) fn find_byte(s: &Vec<u8>, start: usize, end: usize, b: u8) -> (r: usize)
    requires
        start <= end <= s@.len(),
    ensures
        start <= r <= end,
        forall|j: int| start <= j < r ==> s@[j] != b,
        r == end || s@[r as int] == b,
{
    let mut i = start;
    while i < end
        invariant
            start <= i <= end <= s@.len(),
            forall|j: int| start <= j < i ==> s@[j] != b,
        decreases end - i,
    {
        if s[i] == b {
            return i;
        }
        i = i + 1;
    }
    i
}

pub(crate) fn copy_range(s: &Vec<u8>, start: usize, end: usize) -> (r: Vec<u8>)
    requires
        start <= end <= s@.len(),
    ensures
        r@ == s@.subrange(start as int, end as int),
{
    let mut r: Vec<u8> = Vec::new();
    let mut i = start;
    while i < end
        invariant
            start <= i <= end <= s@.len(),
            r@ == s@.subrange(start as int, i as int),
        decreases end - i,
    {
        r.push(s[i]);
        assert(s@.subrange(start as int, i + 1) =~= s@.subrange(start as int, i as int).push(s@[i as int]));
        i = i + 1;
    }
    r
}

fn parse_line(s: &Vec<u8>, start: usize, end: usize) -> (r: Option<Symbol>)
    requires
        start <= end <= s@.len(),
    ensures
        match r {
            Some(sym) => line_symbol(s@.subrange(start as int, end as int)) == Some(
                (sym.name@, sym.binding, sym.defined),
            ),
            None => line_symbol(s@.subrange(start as int, end as int)) is None,
        },
{
    let ghost line = s@.subrange(start as int, end as int);
    let sp = find_byte(s, start, end, 0x20);
    proof {
        lemma_index_of(line, 0x20, sp - start);
    }
    if !(start < sp && end - sp >= 2 && (end - sp == 2 || s[sp + 2] == 0x20)) {
        return None;
    }
    let c = s[sp + 1];
    let name = copy_range(s, start, sp);
    assert(name@ =~= line.take(sp - start));
    match decode_utf8(name) {
        Some(text) => {
            let binding = if c == 0x57 || c == 0x56 || c == 0x77 || c == 0x76 {
                Binding::Weak
            } else if 0x41 <= c && c <= 0x5a {
                Binding::Global
            } else {
                Binding::Local
            };
            Some(Symbol { name: text, binding, defined: c != 0x55 && c != 0x77 && c != 0x76 })
        },
        None => None,
    }
}

/// Reads the symbols out of the output of `nm -g -P`, one per line that
/// describes a symbol, in the order printed.
pub fn parse_nm_output(out: &Vec<u8>) -> (r: Vec<Symbol>)
    ensures
        table_view(r@) == nm_symbols(out@),
{
    let mut r: Vec<Symbol> = Vec::new();
    let mut pos: usize = 0;
    assert(out@.skip(0) =~= out@);
    assert(r@.map_values(|s: Symbol| (s.name@, s.binding, s.defined)) =~= Seq::empty());
    while pos < out.len()
        invariant
            0 <= pos <= out@.len(),
            r@.map_values(|s: Symbol| (s.name@, s.binding, s.defined)) + nm_symbols(out@.skip(pos as int))
                == nm_symbols(out@),
        decreases out@.len() - pos,
    {
        let ghost rest = out@.skip(pos as int);
        let ghost prev = r@;
        let e = find_byte(out, pos, out.len(), 0x0a);
        proof {
            lemma_index_of(rest, 0x0a, e - pos);
            assert(rest.take(e - pos) =~= out@.subrange(pos as int, e as int));
        }
        match parse_line(out, pos, e) {
            Some(sym) => {
                r.push(sym);
            },
            None => {},
        }
        let ghost head = match line_symbol(rest.take(e - pos)) {
            Some(s) => seq![s],
            None => Seq::empty(),
        };
        assert(r@.map_values(|s: Symbol| (s.name@, s.binding, s.defined)) =~= prev.map_values(
            |s: Symbol| (s.name@, s.binding, s.defined),
        ) + head);
        if e < out.len() {
            assert(rest.skip(e - pos + 1) =~= out@.skip(e + 1));
            pos = e + 1;
        } else {
            assert(out@.skip(e as int) =~= Seq::<u8>::empty());
            pos = e;
        }
    }
    assert(r@.map_values(|s: Symbol| (s.name@, s.binding, s.defined)) + nm_symbols(out@.skip(pos as int))
        =~= r@.map_values(|s: Symbol| (s.name@, s.binding, s.defined)));
    assert(table_view(r@) =~= r@.map_values(|s: Symbol| (s.name@, s.binding, s.defined)));
    r
}

} // verus!
