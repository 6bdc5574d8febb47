use vstd::prelude::*;
use crate::error::MergeError;
use crate::merge::{member_view, InputArchive, ObjectMember};
use vstd::string::StringExecFns;
use crate::symbols::{copy_range, decode_utf8, find_byte, index_of, lemma_index_of, utf8_decoded};

verus! {

/// Whether every byte of `s` is a space.
pub open spec fn all_spaces(s: Seq<u8>) -> bool {
    forall|i: int| 0 <= i < s.len() ==> s[i] == 0x20
}

/// Whether `b` is an ASCII digit.
pub open spec fn is_digit(b: u8) -> bool {
    0x30 <= b <= 0x39
}

/// How many ASCII digits `s` starts with.
pub open spec fn leading_digits(s: Seq<u8>) -> nat
    decreases s.len(),
{
    if s.len() > 0 && is_digit(s[0]) {
        1 + leading_digits(s.drop_first())
    } else {
        0
    }
}

/// The number written in decimal by the digits `s`.
pub open spec fn digits_value(s: Seq<u8>) -> nat
    decreases s.len(),
{
    if s.len() == 0 {
        0
    } else {
        digits_value(s.drop_last()) * 10 + (s.last() - 0x30) as nat
    }
}

/// A decimal header field: digits, then only spaces.
pub open spec fn decimal_field(s: Seq<u8>) -> Option<nat> {
    let d = leading_digits(s) as int;
    if d > 0 && all_spaces(s.skip(d)) {
        Some(digits_value(s.take(d)))
    } else {
        None
    }
}

/// `s` without its trailing spaces.
pub open spec fn trim_end_spaces(s: Seq<u8>) -> Seq<u8>
    decreases s.len(),
{
    if s.len() > 0 && s.last() == 0x20 {
        trim_end_spaces(s.drop_last())
    } else {
        s
    }
}

/// Whether `s` begins with `p`.
pub open spec fn starts_with(s: Seq<u8>, p: Seq<u8>) -> bool {
    p.len() <= s.len() && s.take(p.len() as int) == p
}

/// The name of the BSD symbol table member.
pub open spec fn bsd_symdef() -> Seq<u8> {
    seq![0x5f, 0x5f, 0x2e, 0x53, 0x59, 0x4d, 0x44, 0x45, 0x46]
}

/// What one archive entry is, given its 16-byte name field, its data and the
/// long-name table read so far.
pub enum ArEntry {
    /// A symbol table, which the merge rebuilds anyway.
    Skip,
    /// The GNU table of long member names.
    LongNames,
    /// An object member: its name and contents.
    Member(Seq<u8>, Seq<u8>),
    /// An entry that cannot be read.
    Bad,
}

/// A member name unless it names a BSD symbol table.
pub open spec fn named_member(name: Seq<u8>, contents: Seq<u8>) -> ArEntry {
    if starts_with(name, bsd_symdef()) {
        ArEntry::Skip
    } else if name.len() == 0 {
        ArEntry::Bad
    } else {
        ArEntry::Member(name, contents)
    }
}

/// Classifies one entry by its name field: `/` and `/SYM64/` are GNU symbol
/// tables, `//` the GNU long-name table, `/<n>` a long name at offset `n`
/// (ending at `/`), `#1/<n>` a BSD name held in the first `n` bytes of the
/// data (up to its first NUL), and any other name ends at its first `/`
/// (GNU) or before its trailing spaces (BSD).
pub open spec fn classify_entry(field: Seq<u8>, data: Seq<u8>, long_names: Seq<u8>) -> ArEntry {
    if field[0] == 0x2f {
        let rest = field.skip(1);
        if all_spaces(rest) || starts_with(rest, seq![0x53, 0x59, 0x4d, 0x36, 0x34, 0x2f]) {
            ArEntry::Skip
        } else if rest[0] == 0x2f && all_spaces(rest.skip(1)) {
            ArEntry::LongNames
        } else {
            match decimal_field(rest) {
                Some(off) => if off < long_names.len() {
                    let tail = long_names.skip(off as int);
                    named_member(tail.take(index_of(tail, 0x2f) as int), data)
                } else {
                    ArEntry::Bad
                },
                None => ArEntry::Bad,
            }
        }
    } else if starts_with(field, seq![0x23, 0x31, 0x2f]) {
        match decimal_field(field.skip(3)) {
            Some(n) => if n <= data.len() {
                let raw = data.take(n as int);
                named_member(raw.take(index_of(raw, 0) as int), data.skip(n as int))
            } else {
                ArEntry::Bad
            },
            None => ArEntry::Bad,
        }
    } else {
        let slash = index_of(field, 0x2f) as int;
        if slash < field.len() {
            named_member(field.take(slash), data)
        } else {
            named_member(trim_end_spaces(field), data)
        }
    }
}

/// The members of the entries that start at `pos`, or `None` when the rest
/// of the archive is malformed. Each entry has a 60-byte header (name field
/// at 0..16, decimal size at 48..58, `` ` `` and newline at 58..60), then its
/// data, padded to an even length.
pub open spec fn members_from(b: Seq<u8>, pos: int, long_names: Seq<u8>) -> Option<
    Seq<(Seq<char>, Seq<u8>)>,
>
    decreases if pos < b.len() { b.len() - pos } else { 0 },
{
    if pos < 0 || pos >= b.len() {
        Some(Seq::empty())
    } else if pos + 60 > b.len() || b[pos + 58] != 0x60 || b[pos + 59] != 0x0a {
        None
    } else {
        match decimal_field(b.subrange(pos + 48, pos + 58)) {
            None => None,
            Some(size) => if pos + 60 + size > b.len() {
                None
            } else {
                let data = b.subrange(pos + 60, pos + 60 + size);
                let next = pos + 60 + size + size % 2;
                match classify_entry(b.subrange(pos, pos + 16), data, long_names) {
                    ArEntry::Skip => members_from(b, next, long_names),
                    ArEntry::LongNames => members_from(b, next, data),
                    ArEntry::Bad => None,
                    ArEntry::Member(name, contents) => match utf8_decoded(name) {
                        None => None,
                        Some(text) => match members_from(b, next, long_names) {
                            Some(rest) => Some(seq![(text, contents)] + rest),
                            None => None,
                        },
                    },
                }
            },
        }
    }
}

/// The magic bytes every archive starts with: `!<arch>` and a newline.
pub open spec fn ar_magic() -> Seq<u8> {
    seq![0x21, 0x3c, 0x61, 0x72, 0x63, 0x68, 0x3e, 0x0a]
}

/// The members of a whole archive, or `None` when it is not a valid one.
pub open spec fn archive_members(b: Seq<u8>) -> Option<Seq<(Seq<char>, Seq<u8>)>> {
    if starts_with(b, ar_magic()) {
        members_from(b, 8, Seq::empty())
    } else {
        None
    }
}

/// Ten to the power `n`.
pub open spec fn pow10(n: nat) -> nat
    decreases n,
{
    if n == 0 {
        1
    } else {
        10 * pow10((n - 1) as nat)
    }
}

proof fn lemma_pow10_mono(m: nat, n: nat)
    requires
        m <= n,
    ensures
        pow10(m) <= pow10(n),
    decreases n,
{
    if m < n {
        lemma_pow10_mono(m, (n - 1) as nat);
    }
}

proof fn lemma_leading_digits(s: Seq<u8>, k: int)
    requires
        0 <= k <= s.len(),
        forall|j: int| 0 <= j < k ==> is_digit(s[j]),
        k == s.len() || !is_digit(s[k]),
    ensures
        leading_digits(s) == k,
    decreases k,
{
    if k > 0 {
        lemma_leading_digits(s.drop_first(), k - 1);
    }
}

fn parse_decimal(b: &Vec<u8>, start: usize, end: usize) -> (r: Option<u64>)
    requires
        start <= end <= b@.len(),
        end - start <= 16,
    ensures
        match r {
            Some(v) => decimal_field(b@.subrange(start as int, end as int)) == Some(v as nat),
            None => decimal_field(b@.subrange(start as int, end as int)) is None,
        },
{
    let ghost sub = b@.subrange(start as int, end as int);
    let mut i = start;
    let mut v: u64 = 0;
    proof {
        reveal_with_fuel(pow10, 17);
        assert(pow10(15) == 1000000000000000);
        assert(b@.subrange(start as int, start as int) =~= Seq::<u8>::empty());
    }
    while i < end && 0x30 <= b[i] && b[i] <= 0x39
        invariant
            start <= i <= end <= b@.len(),
            end - start <= 16,
            sub == b@.subrange(start as int, end as int),
            pow10(15) == 1000000000000000,
            forall|j: int| start <= j < i ==> is_digit(b@[j]),
            v as nat == digits_value(b@.subrange(start as int, i as int)),
            v < pow10((i - start) as nat),
        decreases end - i,
    {
        let d = b[i] - 0x30;
        proof {
            lemma_pow10_mono((i - start) as nat, 15);
            let p = pow10((i - start) as nat);
            assert(v * 10 + 9 < 10 * p) by (nonlinear_arith)
                requires
                    v < p,
            ;
            assert(b@.subrange(start as int, i + 1).drop_last() =~= b@.subrange(start as int, i as int));
        }
        v = v * 10 + d as u64;
        i = i + 1;
    }
    proof {
        lemma_leading_digits(sub, i - start);
        assert(sub.take(i - start) =~= b@.subrange(start as int, i as int));
    }
    if i == start {
        return None;
    }
    let digits_end = i;
    while i < end
        invariant
            start < digits_end <= i <= end <= b@.len(),
            sub == b@.subrange(start as int, end as int),
            leading_digits(sub) == digits_end - start,
            v as nat == digits_value(sub.take(digits_end - start)),
            forall|j: int| digits_end <= j < i ==> b@[j] == 0x20,
        decreases end - i,
    {
        if b[i] != 0x20 {
            assert(sub.skip(digits_end - start)[i - digits_end] == b@[i as int]);
            return None;
        }
        i = i + 1;
    }
    let ghost tail = sub.skip(digits_end - start);
    assert forall|j: int| 0 <= j < tail.len() implies #[trigger] tail[j] == 0x20 by {
        assert(tail[j] == b@[digits_end + j]);
    }
    Some(v)
}

/// Whether the bytes of `b` in `start..end` begin with `p`.
fn range_starts_with(b: &Vec<u8>, start: usize, end: usize, p: &[u8]) -> (r: bool)
    requires
        start <= end <= b@.len(),
    ensures
        r == starts_with(b@.subrange(start as int, end as int), p@),
{
    let ghost sub = b@.subrange(start as int, end as int);
    if p.len() > end - start {
        return false;
    }
    let mut i: usize = 0;
    while i < p.len()
        invariant
            0 <= i <= p@.len() <= end - start,
            start <= end <= b@.len(),
            sub == b@.subrange(start as int, end as int),
            forall|j: int| 0 <= j < i ==> b@[start + j] == p@[j],
        decreases p@.len() - i,
    {
        if b[start + i] != p[i] {
            assert(sub.take(p@.len() as int)[i as int] != p@[i as int]);
            return false;
        }
        i = i + 1;
    }
    assert(sub.take(p@.len() as int) =~= p@);
    true
}

/// Whether the bytes of `b` in `start..end` are all spaces.
fn range_all_spaces(b: &Vec<u8>, start: usize, end: usize) -> (r: bool)
    requires
        start <= end <= b@.len(),
    ensures
        r == all_spaces(b@.subrange(start as int, end as int)),
{
    let mut i = start;
    while i < end
        invariant
            start <= i <= end <= b@.len(),
            forall|j: int| start <= j < i ==> b@[j] == 0x20,
        decreases end - i,
    {
        if b[i] != 0x20 {
            assert(b@.subrange(start as int, end as int)[i - start] != 0x20);
            return false;
        }
        i = i + 1;
    }
    assert forall|j: int| 0 <= j < end - start implies b@.subrange(start as int, end as int)[j] == 0x20 by {
        assert(b@.subrange(start as int, end as int)[j] == b@[start + j]);
    }
    true
}

proof fn lemma_trim_end(s: Seq<u8>, k: int)
    requires
        0 <= k <= s.len(),
        forall|j: int| k <= j < s.len() ==> s[j] == 0x20,
        k == 0 || s[k - 1] != 0x20,
    ensures
        trim_end_spaces(s) == s.take(k),
    decreases s.len(),
{
    if s.len() > k {
        lemma_trim_end(s.drop_last(), k);
        assert(s.drop_last().take(k) =~= s.take(k));
    } else {
        assert(s.take(k) =~= s);
    }
}

/// The member found in one entry, as positions into what was read.
enum Found {
    Skip,
    LongNames,
    Member(Vec<u8>, usize),
    Bad,
}

fn entry_kind(b: &Vec<u8>, pos: usize, data_end: usize, long_names: &Vec<u8>) -> (r: Found)
    requires
        pos + 60 <= data_end <= b@.len(),
    ensures
        match classify_entry(
            b@.subrange(pos as int, pos + 16),
            b@.subrange(pos + 60, data_end as int),
            long_names@,
        ) {
            ArEntry::Skip => r is Skip,
            ArEntry::LongNames => r is LongNames,
            ArEntry::Bad => r is Bad,
            ArEntry::Member(name, contents) => r matches Found::Member(n, c) && n@ == name
                && pos + 60 <= c <= data_end && contents == b@.subrange(c as int, data_end as int),
        },
{
    let ghost field = b@.subrange(pos as int, pos + 16);
    let ghost data = b@.subrange(pos + 60, data_end as int);
    let fend = pos + 16;
    let dstart = pos + 60;
    if b[pos] == 0x2f {
        assert(field.skip(1) =~= b@.subrange(pos + 1, fend as int));
        assert(field.skip(1).skip(1) =~= b@.subrange(pos + 2, fend as int));
        if range_all_spaces(b, pos + 1, fend) || range_starts_with(b, pos + 1, fend, &[0x53, 0x59, 0x4d, 0x36, 0x34, 0x2f]) {
            return Found::Skip;
        }
        if b[pos + 1] == 0x2f && range_all_spaces(b, pos + 2, fend) {
            return Found::LongNames;
        }
        match parse_decimal(b, pos + 1, fend) {
            Some(off) => {
                if off >= long_names.len() as u64 {
                    return Found::Bad;
                }
                let off = off as usize;
                let slash = find_byte(long_names, off, long_names.len(), 0x2f);
                let ghost tail = long_names@.skip(off as int);
                proof {
                    lemma_index_of(tail, 0x2f, slash - off);
                }
                let name = copy_range(long_names, off, slash);
                assert(name@ =~= tail.take(slash - off));
                finish_member(b, name, dstart, data_end)
            },
            None => Found::Bad,
        }
    } else if range_starts_with(b, pos, fend, &[0x23, 0x31, 0x2f]) {
        assert(field.skip(3) =~= b@.subrange(pos + 3, fend as int));
        match parse_decimal(b, pos + 3, fend) {
            Some(n) => {
                if n > (data_end - dstart) as u64 {
                    return Found::Bad;
                }
                let n = n as usize;
                let nul = find_byte(b, dstart, dstart + n, 0);
                let ghost raw = data.take(n as int);
                proof {
                    assert(raw =~= b@.subrange(dstart as int, dstart + n));
                    lemma_index_of(raw, 0, nul - dstart);
                }
                let name = copy_range(b, dstart, nul);
                assert(name@ =~= raw.take(nul - dstart));
                assert(data.skip(n as int) =~= b@.subrange(dstart + n, data_end as int));
                finish_member(b, name, dstart + n, data_end)
            },
            None => Found::Bad,
        }
    } else {
        let slash = find_byte(b, pos, fend, 0x2f);
        proof {
            lemma_index_of(field, 0x2f, slash - pos);
        }
        if slash < fend {
            let name = copy_range(b, pos, slash);
            assert(name@ =~= field.take(slash - pos));
            finish_member(b, name, dstart, data_end)
        } else {
            let mut k = fend;
            while k > pos && b[k - 1] == 0x20
                invariant
                    pos <= k <= fend,
                    fend == pos + 16,
                    fend <= b@.len(),
                    forall|j: int| k <= j < fend ==> b@[j] == 0x20,
                decreases k,
            {
                k = k - 1;
            }
            proof {
                assert forall|j: int| k - pos <= j < field.len() implies field[j] == 0x20 by {
                    assert(field[j] == b@[pos + j]);
                }
                lemma_trim_end(field, k - pos);
            }
            let name = copy_range(b, pos, k);
            assert(name@ =~= field.take(k - pos));
            finish_member(b, name, dstart, data_end)
        }
    }
}

fn finish_member(b: &Vec<u8>, name: Vec<u8>, c: usize, data_end: usize) -> (r: Found)
    requires
        c <= data_end <= b@.len(),
    ensures
        match named_member(name@, b@.subrange(c as int, data_end as int)) {
            ArEntry::Skip => r is Skip,
            ArEntry::Bad => r is Bad,
            ArEntry::Member(n, contents) => r matches Found::Member(m, c2) && m@ == n && c2 == c,
            ArEntry::LongNames => false,
        },
{
    let mut sym = false;
    if name.len() >= 9 {
        let mut i: usize = 0;
        sym = true;
        let p: [u8; 9] = [0x5f, 0x5f, 0x2e, 0x53, 0x59, 0x4d, 0x44, 0x45, 0x46];
        assert(p@ =~= bsd_symdef());
        while i < 9
            invariant
                0 <= i <= 9,
                name@.len() >= 9,
                p@ == bsd_symdef(),
                sym == forall|j: int| 0 <= j < i ==> name@[j] == p@[j],
            decreases 9 - i,
        {
            if name[i] != p[i] {
                sym = false;
            }
            i = i + 1;
        }
        assert(sym == (name@.take(9) =~= bsd_symdef()));
    }
    if sym {
        Found::Skip
    } else if name.len() == 0 {
        Found::Bad
    } else {
        Found::Member(name, c)
    }
}

/// `done` followed by what the rest of the archive holds.
pub open spec fn then_rest(
    done: Seq<(Seq<char>, Seq<u8>)>,
    rest: Option<Seq<(Seq<char>, Seq<u8>)>>,
) -> Option<Seq<(Seq<char>, Seq<u8>)>> {
    match rest {
        Some(r) => Some(done + r),
        None => None,
    }
}

fn read_error(path: &str) -> (r: MergeError)
    ensures
        r matches MergeError::ArchiveReadError { path: p, reason } && p@ == path@,
{
    MergeError::ArchiveReadError {
        path: String::from_str(path),
        reason: String::from_str("not a valid static archive"),
    }
}

/// Reads the object members of the static archive whose bytes are `bytes`,
/// read from `path`; `stem` is the archive's file stem, kept with the
/// members. Symbol tables are skipped. Fails with `ArchiveReadError`
/// naming `path` exactly when the bytes are not a valid archive.
pub fn read_archive(path: &str, stem: &str, bytes: &Vec<u8>) -> (r: Result<InputArchive, MergeError>)
    ensures
        r is Ok <==> archive_members(bytes@) is Some,
        r matches Ok(a) ==> a.stem@ == stem@ && Some(a.members@.map_values(|m: ObjectMember| member_view(m)))
            == archive_members(bytes@),
        r matches Err(e) ==> (e matches MergeError::ArchiveReadError { path: p, reason } && p@ == path@),
{
    let len = bytes.len();
    if !range_starts_with(bytes, 0, len, &[0x21, 0x3c, 0x61, 0x72, 0x63, 0x68, 0x3e, 0x0a]) {
        proof {
            assert(bytes@.subrange(0, len as int) =~= bytes@);
            assert(seq![0x21u8, 0x3c, 0x61, 0x72, 0x63, 0x68, 0x3e, 0x0a] =~= ar_magic());
        }
        return Err(read_error(path));
    }
    proof {
        assert(bytes@.subrange(0, len as int) =~= bytes@);
    }
    let mut done: Vec<ObjectMember> = Vec::new();
    let mut long_names: Vec<u8> = Vec::new();
    let mut pos: usize = 8;
    assert(done@.map_values(|m: ObjectMember| member_view(m)) =~= Seq::empty());
    assert(long_names@ =~= Seq::<u8>::empty());
    while pos < len
        invariant
            len == bytes@.len(),
            8 <= pos <= len,
            archive_members(bytes@) == then_rest(
                done@.map_values(|m: ObjectMember| member_view(m)),
                members_from(bytes@, pos as int, long_names@),
            ),
        decreases len - pos,
    {
        let ghost views = done@.map_values(|m: ObjectMember| member_view(m));
        if len - pos < 60 || bytes[pos + 58] != 0x60 || bytes[pos + 59] != 0x0a {
            return Err(read_error(path));
        }
        let size = match parse_decimal(bytes, pos + 48, pos + 58) {
            Some(v) => v,
            None => {
                return Err(read_error(path));
            },
        };
        if size > (len - pos - 60) as u64 {
            return Err(read_error(path));
        }
        let data_end = pos + 60 + size as usize;
        let next_pos = if data_end == len {
            len
        } else {
            data_end + (size % 2) as usize
        };
        proof {
            assert(next_pos >= len ==> members_from(bytes@, (data_end + size % 2) as int, long_names@) == Some(Seq::<(Seq<char>, Seq<u8>)>::empty()));
        }
        match entry_kind(bytes, pos, data_end, &long_names) {
            Found::Skip => {
                pos = next_pos;
            },
            Found::LongNames => {
                let ghost before = members_from(bytes@, (data_end + size % 2) as int, bytes@.subrange(pos + 60, data_end as int));
                long_names = copy_range(bytes, pos + 60, data_end);
                assert(data_end + size % 2 >= len ==> before == Some(Seq::<(Seq<char>, Seq<u8>)>::empty()));
                pos = next_pos;
            },
            Found::Bad => {
                return Err(read_error(path));
            },
            Found::Member(name, c) => {
                let ghost name_bytes = name@;
                match decode_utf8(name) {
                    Some(text) => {
                        let data = copy_range(bytes, c, data_end);
                        let ghost prev = done@;
                        done.push(ObjectMember { name: text, data });
                        assert(done@.map_values(|m: ObjectMember| member_view(m)) =~= views.push(
                            (text@, bytes@.subrange(c as int, data_end as int)),
                        ));
                        proof {
                            let rest = members_from(bytes@, (data_end + size % 2) as int, long_names@);
                            match rest {
                                Some(r) => {
                                    assert(views + (seq![(text@, bytes@.subrange(c as int, data_end as int))] + r)
                                        =~= views.push((text@, bytes@.subrange(c as int, data_end as int))) + r);
                                },
                                None => {},
                            }
                        }
                        pos = next_pos;
                    },
                    None => {
                        return Err(read_error(path));
                    },
                }
            },
        }
    }
    assert(members_from(bytes@, pos as int, long_names@) == Some(Seq::<(Seq<char>, Seq<u8>)>::empty()));
    assert(done@.map_values(|m: ObjectMember| member_view(m)) + Seq::<(Seq<char>, Seq<u8>)>::empty()
        =~= done@.map_values(|m: ObjectMember| member_view(m)));
    Ok(InputArchive { stem: String::from_str(stem), members: done })
}

} // verus!
