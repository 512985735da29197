//! Line framing of the simulator channel: `IrisJson:<len>:<payload>`, and the
//! decimal numbers that it carries.
use vstd::prelude::*;

verus! {

/// An ASCII decimal digit.
pub open spec fn is_digit(c: u8) -> bool {
    48 <= c <= 57
}

/// Every byte of `s` is a decimal digit.
pub open spec fn all_digits(s: Seq<u8>) -> bool {
    forall|i: int| 0 <= i < s.len() ==> is_digit(#[trigger] s[i])
}

/// The number that the digits `s` spell, most significant first.
pub open spec fn decimal_value(s: Seq<u8>) -> nat
    decreases s.len(),
{
    if s.len() == 0 {
        0
    } else {
        decimal_value(s.drop_last()) * 10 + (s.last() - 48) as nat
    }
}

/// The shortest decimal spelling of `n`.
pub open spec fn decimal_digits(n: nat) -> Seq<u8>
    decreases n,
{
    if n < 10 {
        seq![(n + 48) as u8]
    } else {
        decimal_digits(n / 10).push((n % 10 + 48) as u8)
    }
}

/// Appends the decimal spelling of `n` to `out`.
pub fn push_decimal(n: u64, out: &mut Vec<u8>)
    ensures
        final(out)@ == old(out)@ + decimal_digits(n as nat),
    decreases n,
{
    if n >= 10 {
        push_decimal(n / 10, out);
    }
    let d: u8 = (n % 10) as u8;
    out.push(d + 48);
    proof {
        assert(old(out)@ + decimal_digits(n as nat) =~= out@);
    }
}


proof fn lemma_decimal_value_grows(s: Seq<u8>, i: int)
    requires
        0 <= i <= s.len(),
        all_digits(s),
    ensures
        decimal_value(s.take(i)) <= decimal_value(s),
    decreases s.len() - i,
{
    if i < s.len() {
        lemma_decimal_value_grows(s, i + 1);
        assert(s.take(i + 1).drop_last() =~= s.take(i));
    } else {
        assert(s.take(i) =~= s);
    }
}

/// Reads a non-empty run of decimal digits as a `u64`; `None` when `s` is
/// empty, holds another byte, or spells a number above `u64::MAX`.
pub fn parse_decimal(s: &[u8]) -> (r: Option<u64>)
    ensures
        r.is_some() <==> (s@.len() > 0 && all_digits(s@) && decimal_value(s@) <= u64::MAX),
        r.is_some() ==> r.unwrap() as nat == decimal_value(s@),
{
    if s.len() == 0 {
        return None;
    }
    let mut v: u64 = 0;
    let mut i: usize = 0;
    while i < s.len()
        invariant
            0 <= i <= s@.len(),
            forall|j: int| 0 <= j < i ==> is_digit(#[trigger] s@[j]),
            v as nat == decimal_value(s@.take(i as int)),
        decreases s@.len() - i,
    {
        let c = s[i];
        if c < 48 || c > 57 {
            assert(!all_digits(s@));
            return None;
        }
        let d: u64 = (c - 48) as u64;
        assert(s@.take(i as int + 1).drop_last() =~= s@.take(i as int));
        if v > (u64::MAX - d) / 10 {
            proof {
                assert(all_digits(s@) ==> decimal_value(s@.take(i as int + 1)) <= decimal_value(s@)) by {
                    if all_digits(s@) {
                        lemma_decimal_value_grows(s@, i as int + 1);
                    }
                }
                assert(decimal_value(s@.take(i as int + 1)) == v * 10 + d);
                assert(v * 10 + d > u64::MAX) by (nonlinear_arith)
                    requires v > (u64::MAX - d) / 10, d <= 9;
            }
            return None;
        }
        proof {
            assert(v * 10 + d <= u64::MAX) by (nonlinear_arith)
                requires v <= (u64::MAX - d) / 10, d <= 9;
        }
        v = v * 10 + d;
        i = i + 1;
    }
    assert(s@.take(s@.len() as int) =~= s@);
    Some(v)
}


/// `IrisJson:`, the tag that opens every frame.
pub open spec fn frame_tag() -> Seq<u8> {
    seq![73u8, 114u8, 105u8, 115u8, 74u8, 115u8, 111u8, 110u8, 58u8]
}

/// `s` starts with `p`.
pub open spec fn has_prefix(s: Seq<u8>, p: Seq<u8>) -> bool {
    p.len() <= s.len() && s.take(p.len() as int) == p
}

/// A frame without its line end: tag, decimal length, `:`, payload.
pub open spec fn frame_line(payload: Seq<u8>) -> Seq<u8> {
    frame_tag() + decimal_digits(payload.len()) + seq![58u8] + payload
}

/// Why a line read from the channel is not a frame.
#[derive(Debug, Clone, Copy, PartialEq, Eq, Structural)]
pub enum FrameError {
    /// The line does not start with `IrisJson:`.
    NotFramed,
    /// No `:` separates the length from the payload.
    MissingPayload,
    /// The length field is not a decimal number that fits in 64 bits.
    BadLength,
    /// The payload does not hold as many bytes as the length field says.
    LengthMismatch,
}

/// `i` is the position of the first `:` in `s`.
pub open spec fn is_first_colon(s: Seq<u8>, i: int) -> bool {
    &&& 0 <= i < s.len()
    &&& s[i] == 58
    &&& forall|j: int| 0 <= j < i ==> s[j] != 58
}

/// What a line read from the channel carries.
pub open spec fn frame_decode(line: Seq<u8>) -> Result<Seq<u8>, FrameError> {
    if !has_prefix(line, frame_tag()) {
        Err(FrameError::NotFramed)
    } else {
        let rest = line.skip(9);
        if !(exists|i: int| is_first_colon(rest, i)) {
            Err(FrameError::MissingPayload)
        } else {
            let i = choose|i: int| is_first_colon(rest, i);
            let len = rest.take(i);
            let payload = rest.skip(i + 1);
            if !(len.len() > 0 && all_digits(len) && decimal_value(len) <= u64::MAX) {
                Err(FrameError::BadLength)
            } else if decimal_value(len) != payload.len() {
                Err(FrameError::LengthMismatch)
            } else {
                Ok(payload)
            }
        }
    }
}

fn push_frame_tag(out: &mut Vec<u8>)
    ensures
        final(out)@ == old(out)@ + frame_tag(),
{
    out.push(73);
    out.push(114);
    out.push(105);
    out.push(115);
    out.push(74);
    out.push(115);
    out.push(111);
    out.push(110);
    out.push(58);
    assert(out@ =~= old(out)@ + frame_tag());
}

/// The bytes that carry `payload` on the channel, line end included.
pub fn encode_frame(payload: &[u8]) -> (r: Vec<u8>)
    ensures
        r@ == frame_line(payload@).push(10u8),
{
    let mut out: Vec<u8> = Vec::new();
    push_frame_tag(&mut out);
    push_decimal(payload.len() as u64, &mut out);
    out.push(58);
    let mut i: usize = 0;
    while i < payload.len()
        invariant
            0 <= i <= payload@.len(),
            out@ == frame_tag() + decimal_digits(payload@.len()) + seq![58u8] + payload@.take(
                i as int,
            ),
        decreases payload@.len() - i,
    {
        out.push(payload[i]);
        i = i + 1;
        assert(out@ =~= frame_tag() + decimal_digits(payload@.len()) + seq![58u8] + payload@.take(
            i as int,
        ));
    }
    assert(payload@.take(payload@.len() as int) =~= payload@);
    out.push(10);
    out
}

/// The payload of one line read from the channel (without its line end), or
/// why the line is to be dropped.
pub fn decode_frame(line: &[u8]) -> (r: Result<Vec<u8>, FrameError>)
    ensures
        match r {
            Ok(p) => frame_decode(line@) == Ok::<Seq<u8>, FrameError>(p@),
            Err(e) => frame_decode(line@) == Err::<Seq<u8>, FrameError>(e),
        },
{
    let tag: [u8; 9] = [73, 114, 105, 115, 74, 115, 111, 110, 58];
    if line.len() < 9 {
        return Err(FrameError::NotFramed);
    }
    let mut k: usize = 0;
    while k < 9
        invariant
            0 <= k <= 9,
            line@.len() >= 9,
            tag@ == frame_tag(),
            forall|j: int| 0 <= j < k ==> line@[j] == frame_tag()[j],
        decreases 9 - k,
    {
        if line[k] != tag[k] {
            assert(line@.take(9)[k as int] != frame_tag()[k as int]);
            return Err(FrameError::NotFramed);
        }
        k = k + 1;
    }
    assert(line@.take(9) =~= frame_tag());
    let ghost rest = line@.skip(9);
    let mut c: usize = 9;
    while c < line.len() && line[c] != 58
        invariant
            9 <= c <= line@.len(),
            rest == line@.skip(9),
            forall|j: int| 0 <= j < c - 9 ==> rest[j] != 58,
        decreases line@.len() - c,
    {
        c = c + 1;
    }
    if c == line.len() {
        assert forall|i: int| !is_first_colon(rest, i) by {
            if is_first_colon(rest, i) {
                assert(rest[i] != 58);
            }
        }
        return Err(FrameError::MissingPayload);
    }
    let ghost i = (c - 9) as int;
    assert(is_first_colon(rest, i));
    proof {
        let ch = choose|i: int| is_first_colon(rest, i);
        if ch < i {
            assert(rest[ch] != 58);
        } else if ch > i {
            assert(rest[i] != 58);
        }
        assert(ch == i);
    }
    let len_field = slice_range(line, 9, c);
    assert(len_field@ =~= rest.take(i));
    let payload = slice_range(line, c + 1, line.len());
    assert(payload@ =~= rest.skip(i + 1));
    match parse_decimal(len_field.as_slice()) {
        None => Err(FrameError::BadLength),
        Some(n) => {
            if n != payload.len() as u64 {
                Err(FrameError::LengthMismatch)
            } else {
                Ok(payload)
            }
        },
    }
}

/// The bytes of `s` from `lo` up to `hi`.
pub fn slice_range(s: &[u8], lo: usize, hi: usize) -> (r: Vec<u8>)
    requires
        lo <= hi <= s@.len(),
    ensures
        r@ == s@.subrange(lo as int, hi as int),
{
    let mut out: Vec<u8> = Vec::new();
    let mut i: usize = lo;
    while i < hi
        invariant
            lo <= i <= hi <= s@.len(),
            out@ == s@.subrange(lo as int, i as int),
        decreases hi - i,
    {
        out.push(s[i]);
        i = i + 1;
        assert(out@ =~= s@.subrange(lo as int, i as int));
    }
    out
}


/// `Supported-Formats: `, the start of the handshake line that lists the
/// serialisation formats of the server.
pub open spec fn formats_tag() -> Seq<u8> {
    seq![83u8, 117u8, 112u8, 112u8, 111u8, 114u8, 116u8, 101u8, 100u8, 45u8, 70u8, 111u8, 114u8, 109u8, 97u8, 116u8, 115u8, 58u8, 32u8]
}

/// `IrisJson`, the one format this client speaks.
pub open spec fn iris_json() -> Seq<u8> {
    seq![73u8, 114u8, 105u8, 115u8, 74u8, 115u8, 111u8, 110u8]
}

/// The bytes that `u8::is_ascii_whitespace` accepts.
pub open spec fn is_ascii_space(c: u8) -> bool {
    c == 32 || c == 9 || c == 10 || c == 12 || c == 13
}

/// The words of `s` read so far, and the word still open at its end.
pub open spec fn split_words(s: Seq<u8>) -> (Seq<Seq<u8>>, Seq<u8>)
    decreases s.len(),
{
    if s.len() == 0 {
        (Seq::empty(), Seq::empty())
    } else {
        let (words, cur) = split_words(s.drop_last());
        if is_ascii_space(s.last()) {
            if cur.len() > 0 {
                (words.push(cur), Seq::empty())
            } else {
                (words, Seq::empty())
            }
        } else {
            (words, cur.push(s.last()))
        }
    }
}

/// The non-empty runs of non-whitespace bytes of `s`, in order.
pub open spec fn ascii_words(s: Seq<u8>) -> Seq<Seq<u8>> {
    let (words, cur) = split_words(s);
    if cur.len() > 0 {
        words.push(cur)
    } else {
        words
    }
}

/// `w` without the commas at its end.
pub open spec fn trim_commas(w: Seq<u8>) -> Seq<u8>
    decreases w.len(),
{
    if w.len() > 0 && w.last() == 44 {
        trim_commas(w.drop_last())
    } else {
        w
    }
}

/// The formats that a handshake line lists, or `None` for another line.
pub open spec fn formats_of(line: Seq<u8>) -> Option<Seq<Seq<u8>>> {
    if has_prefix(line, formats_tag()) {
        Some(ascii_words(line.skip(19)).map_values(|w: Seq<u8>| trim_commas(w)))
    } else {
        None
    }
}

/// `w` without the commas at its end.
pub fn trim_trailing_commas(w: &[u8]) -> (r: Vec<u8>)
    ensures
        r@ == trim_commas(w@),
{
    let mut end: usize = w.len();
    assert(w@.take(end as int) =~= w@);
    while end > 0 && w[end - 1] == 44
        invariant
            0 <= end <= w@.len(),
            trim_commas(w@.take(end as int)) == trim_commas(w@),
        decreases end,
    {
        assert(w@.take(end as int).drop_last() =~= w@.take(end as int - 1));
        end = end - 1;
    }
    let r = slice_range(w, 0, end);
    assert(r@ =~= w@.take(end as int));
    r
}

/// The whitespace-separated words of `s`.
pub fn words_of(s: &[u8]) -> (r: Vec<Vec<u8>>)
    ensures
        r@.len() == ascii_words(s@).len(),
        forall|j: int| 0 <= j < r@.len() ==> #[trigger] r@[j]@ == ascii_words(s@)[j],
{
    let mut words: Vec<Vec<u8>> = Vec::new();
    let mut cur: Vec<u8> = Vec::new();
    let mut i: usize = 0;
    while i < s.len()
        invariant
            0 <= i <= s@.len(),
            words@.len() == split_words(s@.take(i as int)).0.len(),
            forall|j: int| 0 <= j < words@.len() ==> #[trigger] words@[j]@ == split_words(
                s@.take(i as int),
            ).0[j],
            cur@ == split_words(s@.take(i as int)).1,
        decreases s@.len() - i,
    {
        let c = s[i];
        assert(s@.take(i as int + 1).drop_last() =~= s@.take(i as int));
        if c == 32 || c == 9 || c == 10 || c == 12 || c == 13 {
            if cur.len() > 0 {
                words.push(cur);
            }
            cur = Vec::new();
        } else {
            cur.push(c);
        }
        i = i + 1;
    }
    assert(s@.take(s@.len() as int) =~= s@);
    if cur.len() > 0 {
        words.push(cur);
    }
    words
}

/// The formats that a handshake line lists, trailing commas cut off each,
/// or `None` when the line is not the `Supported-Formats: ` line.
pub fn parse_formats(line: &[u8]) -> (r: Option<Vec<Vec<u8>>>)
    ensures
        r.is_some() == formats_of(line@).is_some(),
        r.is_some() ==> r.unwrap()@.len() == formats_of(line@).unwrap().len(),
        r.is_some() ==> forall|j: int|
            0 <= j < r.unwrap()@.len() ==> #[trigger] r.unwrap()@[j]@ == formats_of(
                line@,
            ).unwrap()[j],
{
    let tag = formats_tag_bytes();
    if line.len() < 19 {
        return None;
    }
    let head = slice_range(line, 0, 19);
    if !bytes_eq(head.as_slice(), tag.as_slice()) {
        assert(line@.take(19) =~= head@);
        return None;
    }
    assert(line@.take(19) =~= head@);
    let rest = slice_range(line, 19, line.len());
    assert(rest@ =~= line@.skip(19));
    let words = words_of(rest.as_slice());
    let mut out: Vec<Vec<u8>> = Vec::new();
    let mut j: usize = 0;
    while j < words.len()
        invariant
            0 <= j <= words@.len(),
            words@.len() == ascii_words(rest@).len(),
            forall|k: int| 0 <= k < words@.len() ==> #[trigger] words@[k]@ == ascii_words(rest@)[k],
            out@.len() == j,
            forall|k: int| 0 <= k < j ==> #[trigger] out@[k]@ == trim_commas(ascii_words(rest@)[k]),
        decreases words@.len() - j,
    {
        out.push(trim_trailing_commas(words[j].as_slice()));
        j = j + 1;
    }
    Some(out)
}

fn formats_tag_bytes() -> (r: Vec<u8>)
    ensures
        r@ == formats_tag(),
{
    let r: Vec<u8> = vec![83, 117, 112, 112, 111, 114, 116, 101, 100, 45, 70, 111, 114, 109, 97, 116, 115, 58, 32];
    assert(r@ =~= formats_tag());
    r
}

/// Whether `a` and `b` hold the same bytes.
pub fn bytes_eq(a: &[u8], b: &[u8]) -> (r: bool)
    ensures
        r == (a@ == b@),
{
    if a.len() != b.len() {
        return false;
    }
    let mut i: usize = 0;
    while i < a.len()
        invariant
            a@.len() == b@.len(),
            0 <= i <= a@.len(),
            forall|k: int| 0 <= k < i ==> a@[k] == b@[k],
        decreases a@.len() - i,
    {
        if a[i] != b[i] {
            return false;
        }
        i = i + 1;
    }
    assert(a@ =~= b@);
    true
}

/// Whether the server's list of formats names `IrisJson`.
pub fn supports_iris_json(formats: &Vec<Vec<u8>>) -> (r: bool)
    ensures
        r == exists|j: int| 0 <= j < formats@.len() && #[trigger] formats@[j]@ == iris_json(),
{
    let name: Vec<u8> = vec![73, 114, 105, 115, 74, 115, 111, 110];
    assert(name@ =~= iris_json());
    let mut j: usize = 0;
    while j < formats.len()
        invariant
            0 <= j <= formats@.len(),
            name@ == iris_json(),
            forall|k: int| 0 <= k < j ==> #[trigger] formats@[k]@ != iris_json(),
        decreases formats@.len() - j,
    {
        if bytes_eq(formats[j].as_slice(), name.as_slice()) {
            return true;
        }
        j = j + 1;
    }
    false
}


/// The decimal spelling of `n` is a non-empty run of digits that reads back
/// as `n`.
pub proof fn lemma_decimal_digits(n: nat)
    ensures
        decimal_digits(n).len() > 0,
        all_digits(decimal_digits(n)),
        decimal_value(decimal_digits(n)) == n,
    decreases n,
{
    if n >= 10 {
        lemma_decimal_digits(n / 10);
        let d = decimal_digits(n);
        assert(d.drop_last() =~= decimal_digits(n / 10));
        assert forall|i: int| 0 <= i < d.len() implies is_digit(#[trigger] d[i]) by {
            if i < d.len() - 1 {
                assert(d[i] == decimal_digits(n / 10)[i]);
            }
        }
        assert(d.last() == (n % 10 + 48) as u8);
        assert((d.last() - 48) as nat == n % 10);
        assert(decimal_value(d) == decimal_value(d.drop_last()) * 10 + (d.last() - 48) as nat);
        assert((n / 10) * 10 + n % 10 == n);
    } else {
        let d = decimal_digits(n);
        assert(d.drop_last() =~= Seq::<u8>::empty());
        assert(d.last() == (n + 48) as u8);
        assert(decimal_value(d) == decimal_value(d.drop_last()) * 10 + (d.last() - 48) as nat);
    }
}

/// The number `n <= max` for which `name` is `letter` followed by the
/// decimal spelling of `n`.
pub open spec fn numbered(name: Seq<u8>, letter: u8, max: nat) -> Option<nat> {
    if exists|n: nat| n <= max && name == seq![letter] + decimal_digits(n) {
        Some(choose|n: nat| n <= max && name == seq![letter] + decimal_digits(n))
    } else {
        None
    }
}

/// Reads a name such as `R12`: `letter`, then a number up to `max` written
/// without leading zeros.
pub fn parse_numbered(name: &[u8], letter: u8, max: u64) -> (r: Option<u64>)
    ensures
        match numbered(name@, letter, max as nat) {
            Some(n) => r == Some(n as u64),
            None => r is None,
        },
{
    if name.len() < 2 || name[0] != letter {
        proof {
            assert forall|n: nat| !(n <= max && name@ == seq![letter] + #[trigger] decimal_digits(n)) by {
                lemma_decimal_digits(n);
                if name@ == seq![letter] + decimal_digits(n) {
                    assert(name@[0] == letter);
                }
            }
        }
        return None;
    }
    let rest = slice_range(name, 1, name.len());
    proof {
        assert forall|n: nat| n <= max && name@ == seq![letter] + #[trigger] decimal_digits(n) implies rest@
            == decimal_digits(n) by {
            assert(rest@ =~= (seq![letter] + decimal_digits(n)).subrange(1, name@.len() as int));
            assert(rest@ =~= decimal_digits(n));
        }
    }
    match parse_decimal(rest.as_slice()) {
        None => {
            proof {
                assert forall|n: nat| !(n <= max && name@ == seq![letter] + #[trigger] decimal_digits(n)) by {
                    lemma_decimal_digits(n);
                }
            }
            None
        },
        Some(v) => {
            if v > max {
                proof {
                    assert forall|n: nat| !(n <= max && name@ == seq![letter] + #[trigger] decimal_digits(n)) by {
                        lemma_decimal_digits(n);
                    }
                }
                return None;
            }
            let mut canon: Vec<u8> = Vec::new();
            canon.push(letter);
            push_decimal(v, &mut canon);
            assert(canon@ =~= seq![letter] + decimal_digits(v as nat));
            if bytes_eq(canon.as_slice(), name) {
                proof {
                    let c = choose|n: nat| n <= max && name@ == seq![letter] + decimal_digits(n);
                    lemma_decimal_digits(c);
                }
                Some(v)
            } else {
                proof {
                    assert forall|n: nat| !(n <= max && name@ == seq![letter] + #[trigger] decimal_digits(n)) by {
                        lemma_decimal_digits(n);
                    }
                }
                None
            }
        },
    }
}


/// A frame reads back as the payload it was made of.
pub proof fn lemma_frame_round_trip(payload: Seq<u8>)
    requires
        payload.len() <= u64::MAX,
    ensures
        frame_decode(frame_line(payload)) == Ok::<Seq<u8>, FrameError>(payload),
{
    let d = decimal_digits(payload.len());
    lemma_decimal_digits(payload.len());
    let line = frame_line(payload);
    assert(line.take(9) =~= frame_tag());
    let rest = line.skip(9);
    assert(rest =~= d + seq![58u8] + payload);
    let i = d.len() as int;
    assert forall|j: int| 0 <= j < i implies rest[j] != 58 by {
        assert(rest[j] == d[j]);
        assert(is_digit(d[j]));
    }
    assert(is_first_colon(rest, i));
    let c = choose|k: int| is_first_colon(rest, k);
    assert(c == i) by {
        if c < i {
            assert(rest[c] != 58);
        } else if c > i {
            assert(rest[i] == 58);
        }
    }
    assert(rest.take(i) =~= d);
    assert(rest.skip(i + 1) =~= payload);
}

} // verus!
