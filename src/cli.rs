//! Helpers of the command-line front end: the port banner of a freshly
//! started simulator, common prefixes of instance names, and the lookup of
//! an instance by a shortened name.
use crate::gdb::{string_bytes, text};
use crate::memory::Space;
use crate::wire::{has_prefix, parse_decimal, slice_range};
use vstd::prelude::*;

verus! {

/// `k` is where `a` and `b` first differ: they agree before it, and it is
/// the end of the shorter one or a position where they differ.
pub open spec fn is_mismatch(a: Seq<u8>, b: Seq<u8>, k: int) -> bool {
    &&& 0 <= k <= a.len()
    &&& k <= b.len()
    &&& forall|i: int| 0 <= i < k ==> a[i] == b[i]
    &&& (k == a.len() || k == b.len() || a[k] != b[k])
}

/// The length of the common prefix of `a` and `b`.
pub open spec fn prefix_len(a: Seq<u8>, b: Seq<u8>) -> int {
    choose|k: int| is_mismatch(a, b, k)
}

proof fn lemma_mismatch_unique(a: Seq<u8>, b: Seq<u8>, k: int)
    requires
        is_mismatch(a, b, k),
    ensures
        prefix_len(a, b) == k,
{
    let c = prefix_len(a, b);
    assert(is_mismatch(a, b, c));
    if c < k {
        assert(a[c] == b[c]);
    } else if c > k {
        assert(a[k] == b[k]);
    }
}

/// The length of the common prefix of `xs` and `ys`, compared `N` bytes at
/// a time while whole chunks agree, then byte by byte.
pub fn mismatch_chunks<const N: usize>(xs: &[u8], ys: &[u8]) -> (r: usize)
    requires
        N > 0,
    ensures
        r == prefix_len(xs@, ys@),
{
    let xlen = xs.len();
    let mut off: usize = 0;
    let mut going = true;
    while going && N <= xs.len() - off && N <= ys.len() - off
        invariant
            N > 0,
            xlen == xs@.len(),
            off <= xs@.len(),
            off <= ys@.len(),
            forall|i: int| 0 <= i < off ==> xs@[i] == ys@[i],
        decreases xs@.len() - off + (if going { 1int } else { 0int }),
    {
        let mut j: usize = 0;
        let mut same = true;
        while j < N
            invariant
                N > 0,
                xlen == xs@.len(),
                off + N <= xs@.len(),
                off + N <= ys@.len(),
                0 <= j <= N,
                same ==> forall|i: int| off <= i < off + j ==> xs@[i] == ys@[i],
            decreases N - j,
        {
            if xs[off + j] != ys[off + j] {
                same = false;
            }
            j = j + 1;
        }
        if same {
            off = off + N;
        } else {
            going = false;
        }
    }
    let mut k: usize = off;
    while k < xs.len() && k < ys.len() && xs[k] == ys[k]
        invariant
            off <= k <= xs@.len(),
            k <= ys@.len(),
            forall|i: int| 0 <= i < k ==> xs@[i] == ys@[i],
        decreases xs@.len() - k,
    {
        k = k + 1;
    }
    proof {
        lemma_mismatch_unique(xs@, ys@, k as int);
    }
    k
}

/// The length of the common prefix of `xs` and `ys`.
pub fn mismatch(xs: &[u8], ys: &[u8]) -> (r: usize)
    ensures
        r == prefix_len(xs@, ys@),
{
    mismatch_chunks::<128>(xs, ys)
}

/// The shortest common prefix of each of `rest` with `first`.
pub open spec fn min_prefix(first: Seq<u8>, rest: Seq<Seq<u8>>) -> int
    decreases rest.len(),
{
    if rest.len() == 0 {
        0
    } else if rest.len() == 1 {
        prefix_len(rest[0], first)
    } else {
        let m = min_prefix(first, rest.drop_last());
        let p = prefix_len(rest.last(), first);
        if p < m {
            p
        } else {
            m
        }
    }
}

/// The text of each of `names`.
pub open spec fn texts(names: Seq<String>) -> Seq<Seq<u8>> {
    names.map_values(|s: String| text(&s))
}

/// The length of the prefix that every name shares with the first; zero
/// for fewer than two names.
pub open spec fn shared_prefix(names: Seq<String>) -> int {
    if names.len() < 2 {
        0
    } else {
        min_prefix(text(&names[0]), texts(names).skip(1))
    }
}

/// The length of the prefix that all `names` share with the first one;
/// zero when there are fewer than two.
pub fn common_prefix_len(names: &Vec<String>) -> (r: usize)
    ensures
        r == shared_prefix(names@),
{
    if names.len() < 2 {
        return 0;
    }
    let start = string_bytes(&names[0]);
    let ghost rest = texts(names@).skip(1);
    let mut best: usize = mismatch(string_bytes(&names[1]), start);
    assert(rest.take(1) =~= seq![text(&names@[1])]);
    let mut i: usize = 2;
    while i < names.len()
        invariant
            2 <= i <= names@.len(),
            start@ == text(&names@[0]),
            rest == texts(names@).skip(1),
            best == min_prefix(start@, rest.take(i - 1)),
        decreases names@.len() - i,
    {
        let p = mismatch(string_bytes(&names[i]), start);
        assert(rest.take(i as int).drop_last() =~= rest.take(i - 1));
        assert(rest.take(i as int).last() == text(&names@[i as int]));
        if p < best {
            best = p;
        }
        i = i + 1;
    }
    assert(rest.take(names@.len() - 1) =~= rest);
    best
}

/// `Iris server started listening to port `, the banner of a simulator
/// that was started with its server on.
pub open spec fn banner() -> Seq<u8> {
    seq![73u8, 114u8, 105u8, 115u8, 32u8, 115u8, 101u8, 114u8, 118u8, 101u8, 114u8, 32u8, 115u8, 116u8, 97u8, 114u8, 116u8, 101u8, 100u8, 32u8, 108u8, 105u8, 115u8, 116u8, 101u8, 110u8, 105u8, 110u8, 103u8, 32u8, 116u8, 111u8, 32u8, 112u8, 111u8, 114u8, 116u8, 32u8]
}

/// What one line of the simulator's standard output says of its port:
/// `None` for another line; for the banner line, the port, or `None` in
/// the port when the rest of the line is not a port number.
pub fn port_from_stdout(line: &[u8]) -> (r: Option<Option<u16>>)
    ensures
        !has_prefix(line@, banner()) <==> r is None,
        r matches Some(p) ==> {
            let rest = line@.skip(banner().len() as int);
            &&& (p is Some <==> (rest.len() > 0 && crate::wire::all_digits(rest)
                && crate::wire::decimal_value(rest) <= u16::MAX))
            &&& p is Some ==> p.unwrap() as nat == crate::wire::decimal_value(rest)
        },
{
    let tag: Vec<u8> = vec![73u8, 114u8, 105u8, 115u8, 32u8, 115u8, 101u8, 114u8, 118u8, 101u8, 114u8, 32u8, 115u8, 116u8, 97u8, 114u8, 116u8, 101u8, 100u8, 32u8, 108u8, 105u8, 115u8, 116u8, 101u8, 110u8, 105u8, 110u8, 103u8, 32u8, 116u8, 111u8, 32u8, 112u8, 111u8, 114u8, 116u8, 32u8];
    assert(tag@ =~= banner());
    let n = tag.len();
    if line.len() < n {
        return None;
    }
    let head = slice_range(line, 0, n);
    assert(head@ =~= line@.take(n as int));
    if !crate::wire::bytes_eq(head.as_slice(), tag.as_slice()) {
        return None;
    }
    let rest = slice_range(line, n, line.len());
    assert(rest@ =~= line@.skip(n as int));
    match parse_decimal(rest.as_slice()) {
        Some(v) => if v <= 65535 {
            Some(Some(v as u16))
        } else {
            Some(None)
        },
        None => Some(None),
    }
}


/// How many bytes a hex dump shows per cell.
#[derive(Debug, Clone, Copy, PartialEq, Eq, Structural)]
pub enum GroupBy {
    U64,
    U32,
    U16,
    U8,
}

/// The cell width that a type name asks for.
pub open spec fn group_by_of(s: Seq<u8>) -> Option<GroupBy> {
    if s == seq![117u8, 56u8] || s == seq![99u8, 104u8, 97u8, 114u8] || s == seq![117u8, 105u8, 110u8, 116u8, 56u8, 95u8, 116u8] {
        Some(GroupBy::U8)
    } else if s == seq![117u8, 49u8, 54u8] || s == seq![115u8, 104u8, 111u8, 114u8, 116u8] || s == seq![117u8, 105u8, 110u8, 116u8, 49u8, 54u8, 95u8, 116u8] {
        Some(GroupBy::U16)
    } else if s == seq![117u8, 51u8, 50u8] || s == seq![105u8, 110u8, 116u8] || s == seq![117u8, 105u8, 110u8, 116u8, 51u8, 50u8, 95u8, 116u8] {
        Some(GroupBy::U32)
    } else if s == seq![117u8, 54u8, 52u8] || s == seq![108u8, 111u8, 110u8, 103u8] || s == seq![117u8, 105u8, 110u8, 116u8, 54u8, 52u8, 95u8, 116u8] {
        Some(GroupBy::U64)
    } else {
        None
    }
}

/// Reads a cell width from a type name: `u8`, `char`, `uint8_t`, and the
/// like for 16, 32 and 64 bits.
pub fn group_by_from_str(s: &[u8]) -> (r: Option<GroupBy>)
    ensures
        r == group_by_of(s@),
{
    let name_u8: Vec<u8> = vec![117u8, 56u8];
    let name_char: Vec<u8> = vec![99u8, 104u8, 97u8, 114u8];
    let name_uint8t: Vec<u8> = vec![117u8, 105u8, 110u8, 116u8, 56u8, 95u8, 116u8];
    let name_u16: Vec<u8> = vec![117u8, 49u8, 54u8];
    let name_short: Vec<u8> = vec![115u8, 104u8, 111u8, 114u8, 116u8];
    let name_uint16t: Vec<u8> = vec![117u8, 105u8, 110u8, 116u8, 49u8, 54u8, 95u8, 116u8];
    let name_u32: Vec<u8> = vec![117u8, 51u8, 50u8];
    let name_int: Vec<u8> = vec![105u8, 110u8, 116u8];
    let name_uint32t: Vec<u8> = vec![117u8, 105u8, 110u8, 116u8, 51u8, 50u8, 95u8, 116u8];
    let name_u64: Vec<u8> = vec![117u8, 54u8, 52u8];
    let name_long: Vec<u8> = vec![108u8, 111u8, 110u8, 103u8];
    let name_uint64t: Vec<u8> = vec![117u8, 105u8, 110u8, 116u8, 54u8, 52u8, 95u8, 116u8];
    assert(name_u8@ =~= seq![117u8, 56u8]);
    assert(name_char@ =~= seq![99u8, 104u8, 97u8, 114u8]);
    assert(name_uint8t@ =~= seq![117u8, 105u8, 110u8, 116u8, 56u8, 95u8, 116u8]);
    assert(name_u16@ =~= seq![117u8, 49u8, 54u8]);
    assert(name_short@ =~= seq![115u8, 104u8, 111u8, 114u8, 116u8]);
    assert(name_uint16t@ =~= seq![117u8, 105u8, 110u8, 116u8, 49u8, 54u8, 95u8, 116u8]);
    assert(name_u32@ =~= seq![117u8, 51u8, 50u8]);
    assert(name_int@ =~= seq![105u8, 110u8, 116u8]);
    assert(name_uint32t@ =~= seq![117u8, 105u8, 110u8, 116u8, 51u8, 50u8, 95u8, 116u8]);
    assert(name_u64@ =~= seq![117u8, 54u8, 52u8]);
    assert(name_long@ =~= seq![108u8, 111u8, 110u8, 103u8]);
    assert(name_uint64t@ =~= seq![117u8, 105u8, 110u8, 116u8, 54u8, 52u8, 95u8, 116u8]);
    if crate::wire::bytes_eq(s, name_u8.as_slice()) || crate::wire::bytes_eq(s, name_char.as_slice()) || crate::wire::bytes_eq(s, name_uint8t.as_slice()) {
        Some(GroupBy::U8)
    } else if crate::wire::bytes_eq(s, name_u16.as_slice()) || crate::wire::bytes_eq(s, name_short.as_slice()) || crate::wire::bytes_eq(s, name_uint16t.as_slice()) {
        Some(GroupBy::U16)
    } else if crate::wire::bytes_eq(s, name_u32.as_slice()) || crate::wire::bytes_eq(s, name_int.as_slice()) || crate::wire::bytes_eq(s, name_uint32t.as_slice()) {
        Some(GroupBy::U32)
    } else if crate::wire::bytes_eq(s, name_u64.as_slice()) || crate::wire::bytes_eq(s, name_long.as_slice()) || crate::wire::bytes_eq(s, name_uint64t.as_slice()) {
        Some(GroupBy::U64)
    } else {
        None
    }
}

/// The text that `str::to_lowercase` makes of a string.
pub uninterp spec fn lower_of(s: Seq<char>) -> Seq<char>;

/// Relies on `str::to_lowercase`: the result depends on the characters
/// alone.
#[verifier::external_body]
fn lowercase(s: &str) -> (r: String)
    ensures
        r@ == lower_of(s@),
{
    s.to_lowercase()
}

/// The position of the first of `names` equal to `wanted`.
pub fn position_of(names: &Vec<String>, wanted: &String) -> (r: Option<usize>)
    ensures
        match r {
            Some(i) => i < names@.len() && names@[i as int]@ == wanted@ && forall|j: int|
                0 <= j < i ==> (#[trigger] names@[j])@ != wanted@,
            None => forall|j: int| 0 <= j < names@.len() ==> (#[trigger] names@[j])@ != wanted@,
        },
{
    let mut i: usize = 0;
    while i < names.len()
        invariant
            0 <= i <= names@.len(),
            forall|j: int| 0 <= j < i ==> (#[trigger] names@[j])@ != wanted@,
        decreases names@.len() - i,
    {
        if names[i].eq(wanted) {
            return Some(i);
        }
        i = i + 1;
    }
    None
}

/// The id of the first space whose name equals `arg` when both are
/// lowercased.
pub fn space_by_name(arg: &str, spaces: &Vec<Space>) -> (r: Option<u64>)
    ensures
        match r {
            Some(id) => exists|i: int|
                0 <= i < spaces@.len() && spaces@[i].id == id && lower_of(spaces@[i].name@)
                    == lower_of(arg@) && forall|j: int|
                    0 <= j < i ==> lower_of((#[trigger] spaces@[j]).name@) != lower_of(arg@),
            None => forall|j: int|
                0 <= j < spaces@.len() ==> lower_of((#[trigger] spaces@[j]).name@) != lower_of(
                    arg@,
                ),
        },
{
    let wanted = lowercase(arg);
    let mut names: Vec<String> = Vec::new();
    let mut k: usize = 0;
    while k < spaces.len()
        invariant
            0 <= k <= spaces@.len(),
            names@.len() == k,
            forall|j: int| 0 <= j < k ==> (#[trigger] names@[j])@ == lower_of(spaces@[j].name@),
        decreases spaces@.len() - k,
    {
        names.push(lowercase(spaces[k].name.as_str()));
        k = k + 1;
    }
    match position_of(&names, &wanted) {
        Some(i) => {
            assert(names@[i as int]@ == lower_of(spaces@[i as int].name@));
            assert forall|j: int| 0 <= j < i implies lower_of((#[trigger] spaces@[j]).name@)
                != lower_of(arg@) by {
                assert(names@[j]@ != wanted@);
            }
            Some(spaces[i].id)
        },
        None => {
            assert forall|j: int| 0 <= j < spaces@.len() implies lower_of(
                (#[trigger] spaces@[j]).name@,
            ) != lower_of(arg@) by {
                assert(names@[j]@ != wanted@);
            }
            None
        },
    }
}

/// A space given by number.
pub fn space_number(arg: &[u8]) -> (r: Option<u64>)
    ensures
        r.is_some() <==> (arg@.len() > 0 && crate::wire::all_digits(arg@) && crate::wire::decimal_value(
            arg@,
        ) <= u64::MAX),
        r.is_some() ==> r.unwrap() as nat == crate::wire::decimal_value(arg@),
{
    parse_decimal(arg)
}


/// The bytes a hex dump shows per cell.
pub open spec fn step_of(g: GroupBy) -> nat {
    match g {
        GroupBy::U8 => 1,
        GroupBy::U16 => 2,
        GroupBy::U32 => 4,
        GroupBy::U64 => 8,
    }
}

/// The column header of a hex dump.
pub open spec fn header_of(g: GroupBy) -> Seq<u8> {
    match g {
        GroupBy::U8 => seq![32u8, 32u8, 32u8, 32u8, 32u8, 32u8, 32u8, 32u8, 32u8, 48u8, 32u8, 32u8, 49u8, 32u8, 32u8, 50u8, 32u8, 32u8, 51u8, 32u8, 32u8, 52u8, 32u8, 32u8, 53u8, 32u8, 32u8, 54u8, 32u8, 32u8, 55u8, 32u8, 32u8, 56u8, 32u8, 32u8, 57u8, 32u8, 32u8, 97u8, 32u8, 32u8, 98u8, 32u8, 32u8, 99u8, 32u8, 32u8, 100u8, 32u8, 32u8, 101u8, 32u8, 32u8, 102u8],
        GroupBy::U16 => seq![32u8, 32u8, 32u8, 32u8, 32u8, 32u8, 32u8, 32u8, 32u8, 48u8, 32u8, 32u8, 32u8, 32u8, 50u8, 32u8, 32u8, 32u8, 32u8, 52u8, 32u8, 32u8, 32u8, 32u8, 54u8, 32u8, 32u8, 32u8, 32u8, 56u8, 32u8, 32u8, 32u8, 32u8, 97u8, 32u8, 32u8, 32u8, 32u8, 99u8, 32u8, 32u8, 32u8, 32u8, 101u8],
        GroupBy::U32 => seq![32u8, 32u8, 32u8, 32u8, 32u8, 32u8, 32u8, 32u8, 32u8, 48u8, 32u8, 32u8, 32u8, 32u8, 32u8, 32u8, 32u8, 32u8, 52u8, 32u8, 32u8, 32u8, 32u8, 32u8, 32u8, 32u8, 32u8, 56u8, 32u8, 32u8, 32u8, 32u8, 32u8, 32u8, 32u8, 32u8, 99u8],
        GroupBy::U64 => seq![32u8, 32u8, 32u8, 32u8, 32u8, 32u8, 32u8, 32u8, 32u8, 48u8, 32u8, 32u8, 32u8, 32u8, 32u8, 32u8, 32u8, 32u8, 32u8, 32u8, 32u8, 32u8, 32u8, 32u8, 32u8, 32u8, 56u8],
    }
}

fn header(g: GroupBy) -> (r: Vec<u8>)
    ensures
        r@ == header_of(g),
{
    let r: Vec<u8> = match g {
        GroupBy::U8 => vec![32u8, 32u8, 32u8, 32u8, 32u8, 32u8, 32u8, 32u8, 32u8, 48u8, 32u8, 32u8, 49u8, 32u8, 32u8, 50u8, 32u8, 32u8, 51u8, 32u8, 32u8, 52u8, 32u8, 32u8, 53u8, 32u8, 32u8, 54u8, 32u8, 32u8, 55u8, 32u8, 32u8, 56u8, 32u8, 32u8, 57u8, 32u8, 32u8, 97u8, 32u8, 32u8, 98u8, 32u8, 32u8, 99u8, 32u8, 32u8, 100u8, 32u8, 32u8, 101u8, 32u8, 32u8, 102u8],
        GroupBy::U16 => vec![32u8, 32u8, 32u8, 32u8, 32u8, 32u8, 32u8, 32u8, 32u8, 48u8, 32u8, 32u8, 32u8, 32u8, 50u8, 32u8, 32u8, 32u8, 32u8, 52u8, 32u8, 32u8, 32u8, 32u8, 54u8, 32u8, 32u8, 32u8, 32u8, 56u8, 32u8, 32u8, 32u8, 32u8, 97u8, 32u8, 32u8, 32u8, 32u8, 99u8, 32u8, 32u8, 32u8, 32u8, 101u8],
        GroupBy::U32 => vec![32u8, 32u8, 32u8, 32u8, 32u8, 32u8, 32u8, 32u8, 32u8, 48u8, 32u8, 32u8, 32u8, 32u8, 32u8, 32u8, 32u8, 32u8, 52u8, 32u8, 32u8, 32u8, 32u8, 32u8, 32u8, 32u8, 32u8, 56u8, 32u8, 32u8, 32u8, 32u8, 32u8, 32u8, 32u8, 32u8, 99u8],
        GroupBy::U64 => vec![32u8, 32u8, 32u8, 32u8, 32u8, 32u8, 32u8, 32u8, 32u8, 48u8, 32u8, 32u8, 32u8, 32u8, 32u8, 32u8, 32u8, 32u8, 32u8, 32u8, 32u8, 32u8, 32u8, 32u8, 32u8, 32u8, 56u8],
    };
    assert(r@ =~= header_of(g));
    r
}

/// A lowercase hex digit.
pub open spec fn hex_digit(d: nat) -> u8 {
    if d < 10 {
        (48 + d) as u8
    } else {
        (87 + d) as u8
    }
}

/// The shortest lowercase hex spelling of `n`.
pub open spec fn hex_digits(n: nat) -> Seq<u8>
    decreases n,
{
    if n < 16 {
        seq![hex_digit(n)]
    } else {
        hex_digits(n / 16).push(hex_digit(n % 16))
    }
}

/// `n` in hex, padded with zeros on the left to at least `w` digits.
pub open spec fn hex_padded(n: nat, w: nat) -> Seq<u8> {
    let d = hex_digits(n);
    if d.len() < w {
        Seq::new((w - d.len()) as nat, |i: int| 48u8) + d
    } else {
        d
    }
}

/// Appends the shortest hex spelling of `n`.
fn push_hex(n: u64, out: &mut Vec<u8>)
    ensures
        final(out)@ == old(out)@ + hex_digits(n as nat),
    decreases n,
{
    if n >= 16 {
        push_hex(n / 16, out);
    }
    let d: u8 = (n % 16) as u8;
    if d < 10 {
        out.push(d + 48);
    } else {
        out.push(d + 87);
    }
    proof {
        assert(old(out)@ + hex_digits(n as nat) =~= out@);
    }
}

/// Appends `n` in hex, padded with zeros to at least `w` digits.
fn push_hex_padded(n: u64, w: usize, out: &mut Vec<u8>)
    ensures
        final(out)@ == old(out)@ + hex_padded(n as nat, w as nat),
{
    let mut digits: Vec<u8> = Vec::new();
    push_hex(n, &mut digits);
    assert(digits@ =~= hex_digits(n as nat));
    let ghost start = out@;
    let mut pad: usize = 0;
    let need: usize = if digits.len() < w {
        w - digits.len()
    } else {
        0
    };
    while pad < need
        invariant
            0 <= pad <= need,
            out@ == start + Seq::new(pad as nat, |i: int| 48u8),
        decreases need - pad,
    {
        out.push(48);
        pad = pad + 1;
        assert(out@ =~= start + Seq::new(pad as nat, |i: int| 48u8));
    }
    let ghost mid = out@;
    let mut i: usize = 0;
    while i < digits.len()
        invariant
            0 <= i <= digits@.len(),
            out@ == mid + digits@.take(i as int),
        decreases digits@.len() - i,
    {
        out.push(digits[i]);
        i = i + 1;
        assert(out@ =~= mid + digits@.take(i as int));
    }
    assert(digits@.take(digits@.len() as int) =~= digits@);
    assert(out@ =~= start + hex_padded(n as nat, w as nat));
}

/// 256 to the power `k`.
pub open spec fn pow256(k: nat) -> nat
    decreases k,
{
    if k == 0 {
        1
    } else {
        256 * pow256((k - 1) as nat)
    }
}

/// The `n` bytes of `b` from `off` on, read little-endian.
pub open spec fn le_value(b: Seq<u8>, off: int, n: nat) -> nat
    decreases n,
{
    if n == 0 {
        0
    } else {
        b[off] as nat + 256 * le_value(b, off + 1, (n - 1) as nat)
    }
}

proof fn lemma_pow256_grows(k: nat)
    requires
        k <= 7,
    ensures
        pow256(k) <= 0x100_0000_0000_0000,
    decreases k,
{
    reveal_with_fuel(pow256, 8);
    if k > 0 {
        lemma_pow256_grows((k - 1) as nat);
    }
}

/// Reads `n` bytes from `off` on, little-endian.
fn read_le(b: &[u8], off: usize, n: usize) -> (r: u64)
    requires
        1 <= n <= 8,
        off + n <= b@.len(),
    ensures
        r as nat == le_value(b@, off as int, n as nat),
{
    let blen = b.len();
    let mut v: u64 = 0;
    let mut i: usize = n;
    while i > 0
        invariant
            0 <= i <= n <= 8,
            blen == b@.len(),
            off + n <= b@.len(),
            v as nat == le_value(b@, off + i, (n - i) as nat),
            v < pow256((n - i) as nat),
        decreases i,
    {
        i = i - 1;
        let byte = b[off + i];
        proof {
            lemma_pow256_grows((n - i - 1) as nat);
            assert(v * 256 + byte < pow256((n - i) as nat)) by (nonlinear_arith)
                requires
                    v < pow256((n - i - 1) as nat),
                    pow256((n - i) as nat) == 256 * pow256((n - i - 1) as nat),
                    byte < 256,
            ;
            assert(v * 256 + byte <= 0x1_0000_0000_0000_0000 - 1) by (nonlinear_arith)
                requires
                    v < pow256((n - i - 1) as nat),
                    pow256((n - i - 1) as nat) <= 0x100_0000_0000_0000,
                    byte < 256,
            ;
        }
        v = v * 256 + byte as u64;
    }
    v
}

/// A cell of `step` bytes at `cur` is shown when all its bytes lie in the
/// dumped range.
pub open spec fn cell_shown(address: int, len: int, cur: int, step: nat) -> bool {
    address <= cur && cur + step <= address + len
}

/// The text of the cell at `cur`: a space, then its value in hex, or
/// blanks when it is not shown.
pub open spec fn cell_text(b: Seq<u8>, address: int, cur: int, step: nat) -> Seq<u8> {
    seq![32u8] + if cell_shown(address, b.len() as int, cur, step) {
        hex_padded(le_value(b, cur - address, step), 2 * step)
    } else {
        Seq::new(2 * step, |i: int| 32u8)
    }
}

/// The first `k` cells of the line at `base_addr`.
pub open spec fn cells_text(b: Seq<u8>, address: int, base_addr: int, step: nat, k: nat) -> Seq<u8>
    decreases k,
{
    if k == 0 {
        Seq::empty()
    } else {
        cells_text(b, address, base_addr, step, (k - 1) as nat) + cell_text(
            b,
            address,
            base_addr + (k - 1) * step,
            step,
        )
    }
}

/// The character shown for the byte at `cur`: itself when it is a graphic
/// ASCII character, `.` for another byte of the range, a blank outside it.
pub open spec fn ascii_char(b: Seq<u8>, address: int, cur: int) -> u8 {
    if address <= cur < address + b.len() {
        let c = b[cur - address];
        if 0x21 <= c <= 0x7e {
            c
        } else {
            46u8
        }
    } else {
        32u8
    }
}

/// The characters of the first `k` bytes of the line at `base_addr`.
pub open spec fn ascii_text(b: Seq<u8>, address: int, base_addr: int, k: nat) -> Seq<u8>
    decreases k,
{
    if k == 0 {
        Seq::empty()
    } else {
        ascii_text(b, address, base_addr, (k - 1) as nat).push(
            ascii_char(b, address, base_addr + (k - 1)),
        )
    }
}

/// One line of a hex dump: its address, its cells, and its characters.
pub open spec fn dump_line(b: Seq<u8>, address: int, base_addr: int, step: nat) -> Seq<u8> {
    hex_padded(base_addr as nat, 8) + cells_text(b, address, base_addr, step, 16nat / step) + seq![32u8]
        + ascii_text(b, address, base_addr, 16)
}

/// The number of lines below the header: one per 16 bytes of the range,
/// counted from the 16-byte boundary at or below `address`.
pub open spec fn dump_line_count(len: nat) -> nat {
    (len + 15) / 16
}

/// Whether the addresses that a dump of `len` bytes at `address` touches
/// fit in 64 bits.
pub open spec fn dump_fits(address: nat, len: nat) -> bool {
    address + len + 32 <= u64::MAX
}

/// Whether the addresses that a dump of `len` bytes at `address` touches
/// fit in 64 bits.
pub fn hex_dump_fits(address: u64, len: usize) -> (r: bool)
    ensures
        r == dump_fits(address as nat, len as nat),
{
    address <= u64::MAX - 32 && len as u64 <= u64::MAX - 32 - address
}

fn step_bytes(g: GroupBy) -> (r: u64)
    ensures
        r == step_of(g),
{
    match g {
        GroupBy::U8 => 1,
        GroupBy::U16 => 2,
        GroupBy::U32 => 4,
        GroupBy::U64 => 8,
    }
}

/// A hex dump of `buff`, read at `address`: the column header, then one
/// line per 16 bytes from the 16-byte boundary at or below `address`. A
/// cell whose bytes are not all in `buff` is left blank.
pub fn hex_dump(address: u64, buff: &[u8], group_by: GroupBy) -> (r: Vec<Vec<u8>>)
    requires
        dump_fits(address as nat, buff@.len()),
    ensures
        r@.len() == dump_line_count(buff@.len()) + 1,
        r@[0]@ == header_of(group_by),
        forall|j: int|
            0 <= j < dump_line_count(buff@.len()) ==> (#[trigger] r@[j + 1])@ == dump_line(
                buff@,
                address as int,
                (address - address % 16) + 16 * j,
                step_of(group_by),
            ),
{
    let step = step_bytes(group_by);
    let blen: usize = buff.len();
    let len = blen as u64;
    let base: u64 = address - address % 16;
    let count: u64 = (len + 15) / 16;
    let mut out: Vec<Vec<u8>> = Vec::new();
    out.push(header(group_by));
    let mut j: u64 = 0;
    while j < count
        invariant
            0 <= j <= count,
            count == dump_line_count(buff@.len()),
            len == buff@.len(),
            blen == buff@.len(),
            base == address - address % 16,
            step == step_of(group_by),
            dump_fits(address as nat, buff@.len()),
            out@.len() == j + 1,
            out@[0]@ == header_of(group_by),
            forall|i: int|
                0 <= i < j ==> (#[trigger] out@[i + 1])@ == dump_line(
                    buff@,
                    address as int,
                    base + 16 * i,
                    step as nat,
                ),
        decreases count - j,
    {
        let line_addr: u64 = base + 16 * j;
        let mut line: Vec<u8> = Vec::new();
        push_hex_padded(line_addr, 8, &mut line);
        let ghost head = line@;
        let cells: u64 = 16 / step;
        let mut k: u64 = 0;
        while k < cells
            invariant
                0 <= k <= cells,
                cells == 16u64 / step,
                step == step_of(group_by),
                len == buff@.len(),
                blen == buff@.len(),
                line_addr == base + 16 * j,
                j < count,
                count == dump_line_count(buff@.len()),
                base == address - address % 16,
                dump_fits(address as nat, buff@.len()),
                line@ == head + cells_text(buff@, address as int, line_addr as int, step as nat, k as nat),
            decreases cells - k,
        {
            let cur: u64 = line_addr + k * step;
            let ghost before = line@;
            line.push(32);
            if address <= cur && cur + step <= address + len {
                assert(cur - address < buff@.len());
                let off: usize = (cur - address) as usize;
                assert(off as int == cur - address);
                let v = read_le(buff, off, step as usize);
                assert(v as nat == le_value(buff@, cur - address, step as nat));
                let ghost mid = line@;
                push_hex_padded(v, (2 * step) as usize, &mut line);
                assert(((2 * step) as usize) as nat == 2 * (step as nat));
                assert(cell_shown(address as int, buff@.len() as int, cur as int, step as nat));
                assert(line@ =~= before + cell_text(buff@, address as int, cur as int, step as nat));
            } else {
                let mut z: u64 = 0;
                let ghost mid = line@;
                while z < 2 * step
                    invariant
                        0 <= z <= 2 * step,
                        step <= 8,
                        line@ == mid + Seq::new(z as nat, |i: int| 32u8),
                    decreases 2 * step - z,
                {
                    line.push(32);
                    z = z + 1;
                    assert(line@ =~= mid + Seq::new(z as nat, |i: int| 32u8));
                }
                assert(!cell_shown(address as int, buff@.len() as int, cur as int, step as nat));
                assert(line@ =~= before + cell_text(buff@, address as int, cur as int, step as nat));
            }
            assert(line@ =~= before + cell_text(buff@, address as int, cur as int, step as nat));
            k = k + 1;
        }
        line.push(32);
        let ghost head2 = line@;
        let mut c: u64 = 0;
        while c < 16
            invariant
                0 <= c <= 16,
                len == buff@.len(),
                blen == buff@.len(),
                line_addr == base + 16 * j,
                j < count,
                count == dump_line_count(buff@.len()),
                base == address - address % 16,
                dump_fits(address as nat, buff@.len()),
                line@ == head2 + ascii_text(buff@, address as int, line_addr as int, c as nat),
            decreases 16 - c,
        {
            let cur: u64 = line_addr + c;
            if address <= cur && cur < address + len {
                assert(cur - address < buff@.len());
                let byte = buff[(cur - address) as usize];
                if byte >= 0x21 && byte <= 0x7e {
                    line.push(byte);
                } else {
                    line.push(46);
                }
            } else {
                line.push(32);
            }
            c = c + 1;
            assert(line@ =~= head2 + ascii_text(buff@, address as int, line_addr as int, c as nat));
        }
        assert(line@ =~= dump_line(buff@, address as int, line_addr as int, step as nat));
        out.push(line);
        j = j + 1;
    }
    out
}

} // verus!
