//! The protocol codec: the closed set of request and response variants that
//! travel between a client and the virtual-filesystem service, together with
//! their canonical body encoding.
//!
//! A body is a string.  Each request starts with a one-character tag followed
//! by its fields; a string field is length-prefixed (`decimal ':' chars`), a
//! numeric field is decimal followed by `';'`.  Responses mirror the request
//! variants with lower-case tags; only the length query carries a number.
//! Every encoder and decoder below is verified against the same spec-level
//! definition of the encoding, and decoding a canonical encoding is proved to
//! give back the value that was encoded.

use vstd::prelude::*;
use vstd::string::*;

verus! {

/// Kind of entry that an `Add` request creates.  The file API only ever
/// creates plain files.
#[derive(Clone, Copy, Debug, PartialEq, Eq)]
pub enum EntryType {
    NewFile,
}

/// A request to the virtual-filesystem service, one variant per operation.
#[derive(Debug, PartialEq, Eq)]
pub enum Request {
    /// Existence probe; presence is signalled by a non-empty response payload.
    GetEntry { path: String },
    /// Length query for one entry.
    GetEntryLength { drive: String, path: String },
    /// Read `length` bytes starting at `offset`; bytes arrive as the response
    /// payload.
    GetFileChunk { drive: String, path: String, offset: u64, length: u64 },
    /// Truncate or zero-extend the entry to `size` bytes.
    SetSize { drive: String, path: String, size: u64 },
    /// Write the request payload at `offset`; the write length is implied by
    /// the payload size.
    WriteOffset { drive: String, path: String, offset: u64 },
    /// Create an empty entry of the given kind.
    Add { drive: String, path: String, entry_type: EntryType },
}

/// Mathematical model of a request: field strings as character sequences.
pub enum RequestModel {
    GetEntry { path: Seq<char> },
    GetEntryLength { drive: Seq<char>, path: Seq<char> },
    GetFileChunk { drive: Seq<char>, path: Seq<char>, offset: u64, length: u64 },
    SetSize { drive: Seq<char>, path: Seq<char>, size: u64 },
    WriteOffset { drive: Seq<char>, path: Seq<char>, offset: u64 },
    Add { drive: Seq<char>, path: Seq<char> },
}

impl View for Request {
    type V = RequestModel;

    open spec fn view(&self) -> RequestModel {
        match self {
            Request::GetEntry { path } => RequestModel::GetEntry { path: path@ },
            Request::GetEntryLength { drive, path } => RequestModel::GetEntryLength {
                drive: drive@,
                path: path@,
            },
            Request::GetFileChunk { drive, path, offset, length } => RequestModel::GetFileChunk {
                drive: drive@,
                path: path@,
                offset: *offset,
                length: *length,
            },
            Request::SetSize { drive, path, size } => RequestModel::SetSize {
                drive: drive@,
                path: path@,
                size: *size,
            },
            Request::WriteOffset { drive, path, offset } => RequestModel::WriteOffset {
                drive: drive@,
                path: path@,
                offset: *offset,
            },
            Request::Add { drive, path, entry_type } => RequestModel::Add {
                drive: drive@,
                path: path@,
            },
        }
    }
}

/// A response from the service.  Each variant mirrors the request variant;
/// only the length query carries a scalar, everything else is a bare
/// acknowledgement (file bytes travel out of band as the response payload).
#[derive(Clone, Copy, Debug, PartialEq, Eq, Structural)]
pub enum Response {
    GetEntry,
    GetEntryLength { length: u64 },
    GetFileChunk,
    SetSize,
    WriteOffset,
    Add,
}

// ===== Decimal numerals =====

pub open spec fn is_digit(c: char) -> bool {
    c == '0' || c == '1' || c == '2' || c == '3' || c == '4' || c == '5' || c == '6' || c == '7'
        || c == '8' || c == '9'
}

pub open spec fn digit_char(d: nat) -> char {
    if d == 0 {
        '0'
    } else if d == 1 {
        '1'
    } else if d == 2 {
        '2'
    } else if d == 3 {
        '3'
    } else if d == 4 {
        '4'
    } else if d == 5 {
        '5'
    } else if d == 6 {
        '6'
    } else if d == 7 {
        '7'
    } else if d == 8 {
        '8'
    } else {
        '9'
    }
}

pub open spec fn digit_val(c: char) -> nat {
    if c == '0' {
        0
    } else if c == '1' {
        1
    } else if c == '2' {
        2
    } else if c == '3' {
        3
    } else if c == '4' {
        4
    } else if c == '5' {
        5
    } else if c == '6' {
        6
    } else if c == '7' {
        7
    } else if c == '8' {
        8
    } else {
        9
    }
}

/// The canonical decimal numeral of `n`, most significant digit first.
pub open spec fn decimal(n: nat) -> Seq<char>
    decreases n,
{
    if n < 10 {
        seq![digit_char(n)]
    } else {
        decimal(n / 10).push(digit_char(n % 10))
    }
}

/// The value of a digit string, read as decimal.
pub open spec fn digits_value(s: Seq<char>) -> nat
    decreases s.len(),
{
    if s.len() == 0 {
        0
    } else {
        digits_value(s.drop_last()) * 10 + digit_val(s.last())
    }
}

pub open spec fn all_digits(s: Seq<char>) -> bool {
    forall|i: int| 0 <= i < s.len() ==> is_digit(#[trigger] s[i])
}

/// A digit string is canonical when it is non-empty and has no superfluous
/// leading zero.
pub open spec fn canonical_digits(s: Seq<char>) -> bool {
    &&& s.len() > 0
    &&& all_digits(s)
    &&& (s[0] == '0' ==> s.len() == 1)
}

// ===== The body encoding, at the spec level =====

/// A length-prefixed string field.
pub open spec fn enc_str(s: Seq<char>) -> Seq<char> {
    decimal(s.len()) + seq![':'] + s
}

/// A terminated numeric field.
pub open spec fn enc_num(n: u64) -> Seq<char> {
    decimal(n as nat) + seq![';']
}

/// The canonical body of a request.
pub open spec fn spec_encode_request(r: RequestModel) -> Seq<char> {
    match r {
        RequestModel::GetEntry { path } => seq!['E'] + enc_str(path),
        RequestModel::GetEntryLength { drive, path } => seq!['L'] + enc_str(drive) + enc_str(path),
        RequestModel::GetFileChunk { drive, path, offset, length } => seq!['C'] + enc_str(drive)
            + enc_str(path) + enc_num(offset) + enc_num(length),
        RequestModel::SetSize { drive, path, size } => seq!['S'] + enc_str(drive) + enc_str(path)
            + enc_num(size),
        RequestModel::WriteOffset { drive, path, offset } => seq!['W'] + enc_str(drive) + enc_str(
            path,
        ) + enc_num(offset),
        RequestModel::Add { drive, path } => seq!['A'] + enc_str(drive) + enc_str(path)
            + seq!['F'],
    }
}

/// The canonical body of a response.
pub open spec fn spec_encode_response(r: Response) -> Seq<char> {
    match r {
        Response::GetEntry => seq!['e'],
        Response::GetEntryLength { length } => seq!['l'] + enc_num(length),
        Response::GetFileChunk => seq!['c'],
        Response::SetSize => seq!['s'],
        Response::WriteOffset => seq!['w'],
        Response::Add => seq!['a'],
    }
}

/// What a response body means: `None` for anything that is not the canonical
/// encoding of some response.
pub open spec fn spec_decode_response(s: Seq<char>) -> Option<Response> {
    if s.len() == 0 {
        None
    } else {
        let c = s[0];
        if c == 'e' {
            if s.len() == 1 {
                Some(Response::GetEntry)
            } else {
                None
            }
        } else if c == 'c' {
            if s.len() == 1 {
                Some(Response::GetFileChunk)
            } else {
                None
            }
        } else if c == 's' {
            if s.len() == 1 {
                Some(Response::SetSize)
            } else {
                None
            }
        } else if c == 'w' {
            if s.len() == 1 {
                Some(Response::WriteOffset)
            } else {
                None
            }
        } else if c == 'a' {
            if s.len() == 1 {
                Some(Response::Add)
            } else {
                None
            }
        } else if c == 'l' {
            let t = s.subrange(1, s.len() as int);
            if t.len() >= 2 && t.last() == ';' && canonical_digits(t.drop_last()) && digits_value(
                t.drop_last(),
            ) <= u64::MAX {
                Some(Response::GetEntryLength { length: digits_value(t.drop_last()) as u64 })
            } else {
                None
            }
        } else {
            None
        }
    }
}

// ===== Executable encoders =====

fn push_digit(out: &mut String, d: u64)
    requires
        d < 10,
    ensures
        final(out)@ == old(out)@.push(digit_char(d as nat)),
{
    if d == 0 {
        out.append("0");
        proof {
            reveal_strlit("0");
            assert(final(out)@ =~= old(out)@.push('0'));
        }
    } else if d == 1 {
        out.append("1");
        proof {
            reveal_strlit("1");
            assert(final(out)@ =~= old(out)@.push('1'));
        }
    } else if d == 2 {
        out.append("2");
        proof {
            reveal_strlit("2");
            assert(final(out)@ =~= old(out)@.push('2'));
        }
    } else if d == 3 {
        out.append("3");
        proof {
            reveal_strlit("3");
            assert(final(out)@ =~= old(out)@.push('3'));
        }
    } else if d == 4 {
        out.append("4");
        proof {
            reveal_strlit("4");
            assert(final(out)@ =~= old(out)@.push('4'));
        }
    } else if d == 5 {
        out.append("5");
        proof {
            reveal_strlit("5");
            assert(final(out)@ =~= old(out)@.push('5'));
        }
    } else if d == 6 {
        out.append("6");
        proof {
            reveal_strlit("6");
            assert(final(out)@ =~= old(out)@.push('6'));
        }
    } else if d == 7 {
        out.append("7");
        proof {
            reveal_strlit("7");
            assert(final(out)@ =~= old(out)@.push('7'));
        }
    } else if d == 8 {
        out.append("8");
        proof {
            reveal_strlit("8");
            assert(final(out)@ =~= old(out)@.push('8'));
        }
    } else {
        out.append("9");
        proof {
            reveal_strlit("9");
            assert(final(out)@ =~= old(out)@.push('9'));
        }
    }
}

fn append_decimal(out: &mut String, n: u64)
    ensures
        final(out)@ == old(out)@ + decimal(n as nat),
    decreases n,
{
    if n < 10 {
        push_digit(out, n);
        proof {
            assert(final(out)@ =~= old(out)@ + decimal(n as nat));
        }
    } else {
        append_decimal(out, n / 10);
        push_digit(out, n % 10);
        proof {
            assert((n / 10) as nat == (n as nat) / 10);
            assert((n % 10) as nat == (n as nat) % 10);
            assert(final(out)@ =~= old(out)@ + decimal(n as nat));
        }
    }
}

fn append_str_field(out: &mut String, s: &str)
    ensures
        final(out)@ == old(out)@ + enc_str(s@),
{
    let len = s.unicode_len();
    append_decimal(out, len as u64);
    out.append(":");
    out.append(s);
    proof {
        reveal_strlit(":");
        assert((len as u64) as nat == s@.len());
        assert(final(out)@ =~= old(out)@ + enc_str(s@));
    }
}

fn append_num_field(out: &mut String, n: u64)
    ensures
        final(out)@ == old(out)@ + enc_num(n),
{
    append_decimal(out, n);
    out.append(";");
    proof {
        reveal_strlit(";");
        assert(final(out)@ =~= old(out)@ + enc_num(n));
    }
}

/// Encode a request into its canonical body.
pub fn encode_request(r: &Request) -> (s: String)
    ensures
        s@ == spec_encode_request(r@),
{
    let mut out = String::new();
    match r {
        Request::GetEntry { path } => {
            out.append("E");
            append_str_field(&mut out, path.as_str());
            proof {
                reveal_strlit("E");
                assert(out@ =~= spec_encode_request(r@));
            }
        },
        Request::GetEntryLength { drive, path } => {
            out.append("L");
            append_str_field(&mut out, drive.as_str());
            append_str_field(&mut out, path.as_str());
            proof {
                reveal_strlit("L");
                assert(out@ =~= spec_encode_request(r@));
            }
        },
        Request::GetFileChunk { drive, path, offset, length } => {
            out.append("C");
            append_str_field(&mut out, drive.as_str());
            append_str_field(&mut out, path.as_str());
            append_num_field(&mut out, *offset);
            append_num_field(&mut out, *length);
            proof {
                reveal_strlit("C");
                assert(out@ =~= spec_encode_request(r@));
            }
        },
        Request::SetSize { drive, path, size } => {
            out.append("S");
            append_str_field(&mut out, drive.as_str());
            append_str_field(&mut out, path.as_str());
            append_num_field(&mut out, *size);
            proof {
                reveal_strlit("S");
                assert(out@ =~= spec_encode_request(r@));
            }
        },
        Request::WriteOffset { drive, path, offset } => {
            out.append("W");
            append_str_field(&mut out, drive.as_str());
            append_str_field(&mut out, path.as_str());
            append_num_field(&mut out, *offset);
            proof {
                reveal_strlit("W");
                assert(out@ =~= spec_encode_request(r@));
            }
        },
        Request::Add { drive, path, entry_type } => {
            out.append("A");
            append_str_field(&mut out, drive.as_str());
            append_str_field(&mut out, path.as_str());
            out.append("F");
            proof {
                reveal_strlit("A");
                reveal_strlit("F");
                assert(out@ =~= spec_encode_request(r@));
            }
        },
    }
    out
}

/// Encode a response into its canonical body.
pub fn encode_response(r: &Response) -> (s: String)
    ensures
        s@ == spec_encode_response(*r),
{
    let mut out = String::new();
    match r {
        Response::GetEntry => {
            out.append("e");
            proof {
                reveal_strlit("e");
                assert(out@ =~= spec_encode_response(*r));
            }
        },
        Response::GetEntryLength { length } => {
            out.append("l");
            append_num_field(&mut out, *length);
            proof {
                reveal_strlit("l");
                assert(out@ =~= spec_encode_response(*r));
            }
        },
        Response::GetFileChunk => {
            out.append("c");
            proof {
                reveal_strlit("c");
                assert(out@ =~= spec_encode_response(*r));
            }
        },
        Response::SetSize => {
            out.append("s");
            proof {
                reveal_strlit("s");
                assert(out@ =~= spec_encode_response(*r));
            }
        },
        Response::WriteOffset => {
            out.append("w");
            proof {
                reveal_strlit("w");
                assert(out@ =~= spec_encode_response(*r));
            }
        },
        Response::Add => {
            out.append("a");
            proof {
                reveal_strlit("a");
                assert(out@ =~= spec_encode_response(*r));
            }
        },
    }
    out
}

// ===== Executable decoder for responses =====

fn exec_is_digit(c: char) -> (b: bool)
    ensures
        b == is_digit(c),
{
    c == '0' || c == '1' || c == '2' || c == '3' || c == '4' || c == '5' || c == '6' || c == '7'
        || c == '8' || c == '9'
}

fn exec_digit_val(c: char) -> (v: u64)
    requires
        is_digit(c),
    ensures
        v == digit_val(c),
{
    if c == '0' {
        0
    } else if c == '1' {
        1
    } else if c == '2' {
        2
    } else if c == '3' {
        3
    } else if c == '4' {
        4
    } else if c == '5' {
        5
    } else if c == '6' {
        6
    } else if c == '7' {
        7
    } else if c == '8' {
        8
    } else {
        9
    }
}

/// The value of a longer digit string never falls below the value of one of
/// its prefixes.
proof fn lemma_digits_value_prefix_le(s: Seq<char>, a: int, i: int, j: int)
    requires
        0 <= a <= i <= j <= s.len(),
    ensures
        digits_value(s.subrange(a, i)) <= digits_value(s.subrange(a, j)),
    decreases j - i,
{
    if i < j {
        lemma_digits_value_prefix_le(s, a, i, j - 1);
        assert(s.subrange(a, j).drop_last() =~= s.subrange(a, j - 1));
        assert(digits_value(s.subrange(a, j)) == digits_value(s.subrange(a, j - 1)) * 10
            + digit_val(s.subrange(a, j).last()));
        assert(digits_value(s.subrange(a, j - 1)) * 10 >= digits_value(s.subrange(a, j - 1)));
    }
}

/// Parse the digit run `s[start..end]` as a decimal number, deciding exactly
/// whether it is a canonical numeral whose value fits in a `u64`.
fn parse_digits(s: &str, start: usize, end: usize) -> (r: Option<u64>)
    requires
        start <= end <= s@.len(),
    ensures
        match r {
            Some(v) => canonical_digits(s@.subrange(start as int, end as int)) && v
                == digits_value(s@.subrange(start as int, end as int)),
            None => !(canonical_digits(s@.subrange(start as int, end as int)) && digits_value(
                s@.subrange(start as int, end as int),
            ) <= u64::MAX),
        },
{
    let ghost whole = s@.subrange(start as int, end as int);
    if start == end {
        return None;
    }
    let first = s.get_char(start);
    if !exec_is_digit(first) {
        proof {
            assert(whole[0] == first);
            assert(!all_digits(whole));
        }
        return None;
    }
    if first == '0' && end - start > 1 {
        proof {
            assert(whole[0] == '0' && whole.len() > 1);
        }
        return None;
    }
    let mut acc: u64 = 0;
    let mut i: usize = start;
    while i < end
        invariant
            start <= i <= end <= s@.len(),
            whole == s@.subrange(start as int, end as int),
            acc == digits_value(s@.subrange(start as int, i as int)),
            forall|k: int| start <= k < i ==> is_digit(#[trigger] s@[k]),
        decreases end - i,
    {
        let c = s.get_char(i);
        if !exec_is_digit(c) {
            proof {
                assert(whole[i - start] == c);
                assert(!all_digits(whole));
            }
            return None;
        }
        let d = exec_digit_val(c);
        if acc > (u64::MAX - d) / 10 {
            proof {
                assert(s@.subrange(start as int, i + 1).drop_last() =~= s@.subrange(
                    start as int,
                    i as int,
                ));
                assert(digits_value(s@.subrange(start as int, i + 1)) == acc * 10 + digit_val(c));
                assert(acc * 10 + digit_val(c) > u64::MAX) by {
                    assert(acc >= (u64::MAX - d) / 10 + 1);
                    assert(acc * 10 >= ((u64::MAX - d) / 10 + 1) * 10);
                    assert(((u64::MAX - d) / 10 + 1) * 10 > u64::MAX - d);
                };
                lemma_digits_value_prefix_le(s@, start as int, i + 1, end as int);
            }
            return None;
        }
        proof {
            assert(acc * 10 + d <= u64::MAX) by {
                assert(acc <= (u64::MAX - d) / 10);
                assert(acc * 10 <= ((u64::MAX - d) / 10) * 10);
                assert(((u64::MAX - d) / 10) * 10 <= u64::MAX - d);
            };
            assert(s@.subrange(start as int, i + 1).drop_last() =~= s@.subrange(
                start as int,
                i as int,
            ));
            assert(s@.subrange(start as int, i + 1).last() == c);
        }
        acc = acc * 10 + d;
        i = i + 1;
    }
    proof {
        assert(whole.len() > 0);
        assert(forall|k: int| 0 <= k < whole.len() ==> is_digit(#[trigger] whole[k]));
        assert(canonical_digits(whole));
    }
    Some(acc)
}

/// Decode a response body; returns `None` exactly on bodies that are not the
/// canonical encoding of any response.
pub fn decode_response(s: &str) -> (r: Option<Response>)
    ensures
        r == spec_decode_response(s@),
{
    let n = s.unicode_len();
    if n == 0 {
        return None;
    }
    let c = s.get_char(0);
    if c == 'e' {
        if n == 1 {
            Some(Response::GetEntry)
        } else {
            None
        }
    } else if c == 'c' {
        if n == 1 {
            Some(Response::GetFileChunk)
        } else {
            None
        }
    } else if c == 's' {
        if n == 1 {
            Some(Response::SetSize)
        } else {
            None
        }
    } else if c == 'w' {
        if n == 1 {
            Some(Response::WriteOffset)
        } else {
            None
        }
    } else if c == 'a' {
        if n == 1 {
            Some(Response::Add)
        } else {
            None
        }
    } else if c == 'l' {
        let ghost t = s@.subrange(1, s@.len() as int);
        if n < 3 {
            proof {
                assert(t.len() < 2);
            }
            return None;
        }
        let lastc = s.get_char(n - 1);
        proof {
            assert(t.last() == s@[n - 1]);
            assert(t.drop_last() =~= s@.subrange(1, n - 1));
        }
        if lastc != ';' {
            return None;
        }
        match parse_digits(s, 1, n - 1) {
            Some(v) => Some(Response::GetEntryLength { length: v }),
            None => None,
        }
    } else {
        None
    }
}

// ===== Spec-level parser for request bodies =====

/// First position at or after `i` that does not hold a digit.
pub open spec fn scan_digits(s: Seq<char>, i: int) -> int
    decreases s.len() - i,
{
    if 0 <= i < s.len() && is_digit(s[i]) {
        scan_digits(s, i + 1)
    } else {
        i
    }
}

/// Parse a canonical numeral at `i` followed by `terminator`, yielding the
/// value and the position after the terminator.
pub open spec fn parse_num_at(s: Seq<char>, i: int, terminator: char) -> Option<(nat, int)> {
    let j = scan_digits(s, i);
    let digits = s.subrange(i, j);
    if digits.len() == 0 {
        None
    } else if digits[0] == '0' && digits.len() > 1 {
        None
    } else if j >= s.len() || s[j] != terminator {
        None
    } else {
        Some((digits_value(digits), j + 1))
    }
}

/// Parse a length-prefixed string field at `i`.
pub open spec fn parse_str_at(s: Seq<char>, i: int) -> Option<(Seq<char>, int)> {
    match parse_num_at(s, i, ':') {
        None => None,
        Some((len, j)) => if j + len <= s.len() {
            Some((s.subrange(j, j + len), j + len))
        } else {
            None
        },
    }
}

/// Parse a terminated numeric field at `i`, requiring the value to fit in a
/// `u64`.
pub open spec fn parse_u64_at(s: Seq<char>, i: int) -> Option<(u64, int)> {
    match parse_num_at(s, i, ';') {
        None => None,
        Some((v, j)) => if v <= u64::MAX {
            Some((v as u64, j))
        } else {
            None
        },
    }
}

/// What a request body means: `None` for anything that is not the canonical
/// encoding of some request.
pub open spec fn spec_decode_request(s: Seq<char>) -> Option<RequestModel> {
    if s.len() == 0 {
        None
    } else {
        let c = s[0];
        if c == 'E' {
            match parse_str_at(s, 1) {
                Some((path, i)) => if i == s.len() {
                    Some(RequestModel::GetEntry { path })
                } else {
                    None
                },
                None => None,
            }
        } else if c == 'L' {
            match parse_str_at(s, 1) {
                Some((drive, i)) => match parse_str_at(s, i) {
                    Some((path, j)) => if j == s.len() {
                        Some(RequestModel::GetEntryLength { drive, path })
                    } else {
                        None
                    },
                    None => None,
                },
                None => None,
            }
        } else if c == 'C' {
            match parse_str_at(s, 1) {
                Some((drive, i)) => match parse_str_at(s, i) {
                    Some((path, j)) => match parse_u64_at(s, j) {
                        Some((offset, k)) => match parse_u64_at(s, k) {
                            Some((length, m)) => if m == s.len() {
                                Some(RequestModel::GetFileChunk { drive, path, offset, length })
                            } else {
                                None
                            },
                            None => None,
                        },
                        None => None,
                    },
                    None => None,
                },
                None => None,
            }
        } else if c == 'S' {
            match parse_str_at(s, 1) {
                Some((drive, i)) => match parse_str_at(s, i) {
                    Some((path, j)) => match parse_u64_at(s, j) {
                        Some((size, k)) => if k == s.len() {
                            Some(RequestModel::SetSize { drive, path, size })
                        } else {
                            None
                        },
                        None => None,
                    },
                    None => None,
                },
                None => None,
            }
        } else if c == 'W' {
            match parse_str_at(s, 1) {
                Some((drive, i)) => match parse_str_at(s, i) {
                    Some((path, j)) => match parse_u64_at(s, j) {
                        Some((offset, k)) => if k == s.len() {
                            Some(RequestModel::WriteOffset { drive, path, offset })
                        } else {
                            None
                        },
                        None => None,
                    },
                    None => None,
                },
                None => None,
            }
        } else if c == 'A' {
            match parse_str_at(s, 1) {
                Some((drive, i)) => match parse_str_at(s, i) {
                    Some((path, j)) => if j + 1 == s.len() && s[j] == 'F' {
                        Some(RequestModel::Add { drive, path })
                    } else {
                        None
                    },
                    None => None,
                },
                None => None,
            }
        } else {
            None
        }
    }
}

// ===== The codec laws =====

/// The canonical numeral of `n` is made of digits, has no superfluous leading
/// zero, and starts with `'0'` only for `n == 0`.
pub proof fn lemma_decimal_canonical(n: nat)
    ensures
        canonical_digits(decimal(n)),
        n > 0 ==> decimal(n)[0] != '0',
    decreases n,
{
    if n < 10 {
        assert(decimal(n) =~= seq![digit_char(n)]);
    } else {
        lemma_decimal_canonical(n / 10);
        let p = decimal(n / 10);
        assert(decimal(n) == p.push(digit_char(n % 10)));
        assert(decimal(n)[0] == p[0]);
        assert(forall|i: int| 0 <= i < decimal(n).len() ==> is_digit(#[trigger] decimal(n)[i]))
            by {
            assert(forall|i: int| 0 <= i < p.len() ==> decimal(n)[i] == #[trigger] p[i]);
            assert(decimal(n).last() == digit_char(n % 10));
        };
    }
}

/// Reading the canonical numeral of `n` back as a decimal gives `n`.
pub proof fn lemma_decimal_value(n: nat)
    ensures
        digits_value(decimal(n)) == n,
    decreases n,
{
    if n < 10 {
        let s = decimal(n);
        assert(s == seq![digit_char(n)]);
        assert(s.drop_last() =~= Seq::<char>::empty());
        assert(digits_value(s.drop_last()) == 0);
        assert(s.last() == digit_char(n));
        assert(digits_value(s) == 0 * 10 + digit_val(digit_char(n)));
        assert(digit_val(digit_char(n)) == n);
    } else {
        lemma_decimal_value(n / 10);
        let p = decimal(n / 10);
        assert(decimal(n) == p.push(digit_char(n % 10)));
        assert(decimal(n).drop_last() =~= p);
        assert(digits_value(decimal(n)) == (n / 10) * 10 + digit_val(digit_char(n % 10)));
        assert(digit_val(digit_char(n % 10)) == n % 10);
    }
}

/// Decoding the canonical encoding of any response gives that response back:
/// the response codec round-trips.
pub proof fn lemma_response_round_trip(r: Response)
    ensures
        spec_decode_response(spec_encode_response(r)) == Some(r),
{
    let s = spec_encode_response(r);
    match r {
        Response::GetEntry => {
            assert(s.len() == 1 && s[0] == 'e');
        },
        Response::GetFileChunk => {
            assert(s.len() == 1 && s[0] == 'c');
        },
        Response::SetSize => {
            assert(s.len() == 1 && s[0] == 's');
        },
        Response::WriteOffset => {
            assert(s.len() == 1 && s[0] == 'w');
        },
        Response::Add => {
            assert(s.len() == 1 && s[0] == 'a');
        },
        Response::GetEntryLength { length } => {
            lemma_decimal_canonical(length as nat);
            lemma_decimal_value(length as nat);
            let d = decimal(length as nat);
            assert(s =~= seq!['l'] + d + seq![';']);
            assert(s[0] == 'l');
            let t = s.subrange(1, s.len() as int);
            assert(t =~= d + seq![';']);
            assert(t.last() == ';');
            assert(t.drop_last() =~= d);
            assert(t.len() >= 2);
            assert(digits_value(d) == length as nat);
        },
    }
}

proof fn lemma_scan_digits_stop(s: Seq<char>, i: int, j: int)
    requires
        0 <= i <= j <= s.len(),
        forall|k: int| i <= k < j ==> is_digit(#[trigger] s[k]),
        j == s.len() || !is_digit(s[j]),
    ensures
        scan_digits(s, i) == j,
    decreases j - i,
{
    if i < j {
        lemma_scan_digits_stop(s, i + 1, j);
    }
}

proof fn lemma_scan_digits_range(s: Seq<char>, i: int)
    requires
        0 <= i <= s.len(),
    ensures
        i <= scan_digits(s, i) <= s.len(),
    decreases s.len() - i,
{
    if i < s.len() && is_digit(s[i]) {
        lemma_scan_digits_range(s, i + 1);
    }
}

/// At a position holding the canonical numeral of `v` followed by a
/// non-digit terminator, the numeral parser yields exactly `v`.
proof fn lemma_parse_num_exact(s: Seq<char>, i: int, v: nat, terminator: char)
    requires
        0 <= i,
        !is_digit(terminator),
        i + decimal(v).len() + 1 <= s.len(),
        s.subrange(i, i + decimal(v).len() + 1) == decimal(v).push(terminator),
    ensures
        parse_num_at(s, i, terminator) == Some((v, i + decimal(v).len() + 1)),
{
    lemma_decimal_canonical(v);
    lemma_decimal_value(v);
    let d = decimal(v);
    let j = i + d.len();
    assert forall|k: int| i <= k < j implies is_digit(#[trigger] s[k]) by {
        assert(s[k] == s.subrange(i, i + d.len() + 1)[k - i]);
        assert(d.push(terminator)[k - i] == d[k - i]);
    };
    assert(s[j] == s.subrange(i, i + d.len() + 1)[d.len() as int]);
    assert(s[j] == terminator);
    lemma_scan_digits_stop(s, i, j);
    assert(s.subrange(i, j) =~= d) by {
        assert forall|k: int| 0 <= k < d.len() implies s.subrange(i, j)[k] == d[k] by {
            assert(s[i + k] == s.subrange(i, i + d.len() + 1)[k]);
            assert(d.push(terminator)[k] == d[k]);
        };
    };
}

/// At a position holding the encoding of a string field, the field parser
/// yields exactly that field.
proof fn lemma_parse_str_exact(s: Seq<char>, i: int, field: Seq<char>)
    requires
        0 <= i,
        i + enc_str(field).len() <= s.len(),
        s.subrange(i, i + enc_str(field).len()) == enc_str(field),
    ensures
        parse_str_at(s, i) == Some((field, i + enc_str(field).len())),
{
    let d = decimal(field.len());
    let e = enc_str(field);
    assert(e.len() == d.len() + 1 + field.len());
    assert(s.subrange(i, i + d.len() + 1) =~= d.push(':')) by {
        assert forall|k: int| 0 <= k < d.len() + 1 implies s.subrange(i, i + d.len() + 1)[k]
            == d.push(':')[k] by {
            assert(s[i + k] == s.subrange(i, i + e.len())[k]);
            assert(e[k] == (d + seq![':'])[k]);
        };
    };
    assert(!is_digit(':'));
    lemma_parse_num_exact(s, i, field.len(), ':');
    let j = i + d.len() + 1;
    assert(s.subrange(j, j + field.len()) =~= field) by {
        assert forall|k: int| 0 <= k < field.len() implies s.subrange(j, j + field.len())[k]
            == field[k] by {
            assert(s[j + k] == s.subrange(i, i + e.len())[d.len() + 1 + k]);
            assert(e[d.len() + 1 + k] == field[k]);
        };
    };
}

/// Decoding the canonical encoding of any request gives that request back:
/// the request codec round-trips.
#[verifier::rlimit(50)]
pub proof fn lemma_request_round_trip(r: RequestModel)
    ensures
        spec_decode_request(spec_encode_request(r)) == Some(r),
{
    let s = spec_encode_request(r);
    match r {
        RequestModel::GetEntry { path } => {
            let ep = enc_str(path);
            assert(s.subrange(1, 1 + ep.len() as int) =~= ep);
            lemma_parse_str_exact(s, 1, path);
        },
        RequestModel::GetEntryLength { drive, path } => {
            let ed = enc_str(drive);
            let ep = enc_str(path);
            let i2 = 1 + ed.len() as int;
            assert(s.subrange(1, i2) =~= ed);
            lemma_parse_str_exact(s, 1, drive);
            assert(s.subrange(i2, i2 + ep.len() as int) =~= ep);
            lemma_parse_str_exact(s, i2, path);
        },
        RequestModel::GetFileChunk { drive, path, offset, length } => {
            let ed = enc_str(drive);
            let ep = enc_str(path);
            let eo = enc_num(offset);
            let el = enc_num(length);
            let i2 = 1 + ed.len() as int;
            let i3 = i2 + ep.len() as int;
            let i4 = i3 + eo.len() as int;
            assert(s.subrange(1, i2) =~= ed);
            lemma_parse_str_exact(s, 1, drive);
            assert(s.subrange(i2, i3) =~= ep);
            lemma_parse_str_exact(s, i2, path);
            assert(s.subrange(i3, i4) =~= decimal(offset as nat).push(';'));
            lemma_parse_num_exact(s, i3, offset as nat, ';');
            assert(s.subrange(i4, i4 + el.len() as int) =~= decimal(length as nat).push(';'));
            lemma_parse_num_exact(s, i4, length as nat, ';');
        },
        RequestModel::SetSize { drive, path, size } => {
            let ed = enc_str(drive);
            let ep = enc_str(path);
            let ez = enc_num(size);
            let i2 = 1 + ed.len() as int;
            let i3 = i2 + ep.len() as int;
            assert(s.subrange(1, i2) =~= ed);
            lemma_parse_str_exact(s, 1, drive);
            assert(s.subrange(i2, i3) =~= ep);
            lemma_parse_str_exact(s, i2, path);
            assert(s.subrange(i3, i3 + ez.len() as int) =~= decimal(size as nat).push(';'));
            lemma_parse_num_exact(s, i3, size as nat, ';');
        },
        RequestModel::WriteOffset { drive, path, offset } => {
            let ed = enc_str(drive);
            let ep = enc_str(path);
            let eo = enc_num(offset);
            let i2 = 1 + ed.len() as int;
            let i3 = i2 + ep.len() as int;
            assert(s.subrange(1, i2) =~= ed);
            lemma_parse_str_exact(s, 1, drive);
            assert(s.subrange(i2, i3) =~= ep);
            lemma_parse_str_exact(s, i2, path);
            assert(s.subrange(i3, i3 + eo.len() as int) =~= decimal(offset as nat).push(';'));
            lemma_parse_num_exact(s, i3, offset as nat, ';');
        },
        RequestModel::Add { drive, path } => {
            let ed = enc_str(drive);
            let ep = enc_str(path);
            let i2 = 1 + ed.len() as int;
            let i3 = i2 + ep.len() as int;
            assert(s.subrange(1, i2) =~= ed);
            lemma_parse_str_exact(s, 1, drive);
            assert(s.subrange(i2, i3) =~= ep);
            lemma_parse_str_exact(s, i2, path);
            assert(s[i3] == 'F');
        },
    }
}

/// The canonical request encoding is injective: distinct requests have
/// distinct bodies.
pub proof fn lemma_encode_request_injective(a: RequestModel, b: RequestModel)
    requires
        spec_encode_request(a) == spec_encode_request(b),
    ensures
        a == b,
{
    lemma_request_round_trip(a);
    lemma_request_round_trip(b);
}

// ===== Executable decoder for requests =====

fn exec_scan_digits(s: &str, i: usize, n: usize) -> (j: usize)
    requires
        i <= n,
        n == s@.len(),
    ensures
        i <= j <= n,
        j == scan_digits(s@, i as int),
        forall|k: int| i <= k < j ==> is_digit(#[trigger] s@[k]),
{
    let mut j = i;
    loop
        invariant_except_break
            i <= j <= n,
            n == s@.len(),
            scan_digits(s@, i as int) == scan_digits(s@, j as int),
            forall|k: int| i <= k < j ==> is_digit(#[trigger] s@[k]),
        ensures
            i <= j <= n,
            j == scan_digits(s@, i as int),
            forall|k: int| i <= k < j ==> is_digit(#[trigger] s@[k]),
        decreases n - j,
    {
        if j == n {
            break;
        }
        let c = s.get_char(j);
        if !exec_is_digit(c) {
            break;
        }
        j = j + 1;
    }
    j
}

fn exec_parse_num_at(s: &str, i: usize, n: usize, terminator: char) -> (r: Option<(u64, usize)>)
    requires
        i <= n,
        n == s@.len(),
        is_digit(terminator) == false,
    ensures
        match r {
            Some((v, j)) => parse_num_at(s@, i as int, terminator) == Some((v as nat, j as int))
                && i < j <= n,
            None => parse_num_at(s@, i as int, terminator) is None || (parse_num_at(
                s@,
                i as int,
                terminator,
            ) matches Some((v, j)) && v > u64::MAX),
        },
{
    let j = exec_scan_digits(s, i, n);
    if j == i {
        return None;
    }
    if j == n {
        return None;
    }
    let t = s.get_char(j);
    if t != terminator {
        return None;
    }
    proof {
        assert(all_digits(s@.subrange(i as int, j as int)));
    }
    match parse_digits(s, i, j) {
        None => None,
        Some(v) => Some((v, j + 1)),
    }
}

fn exec_parse_str_at<'a>(s: &'a str, i: usize, n: usize) -> (r: Option<(&'a str, usize)>)
    requires
        i <= n,
        n == s@.len(),
    ensures
        match r {
            Some((field, j)) => parse_str_at(s@, i as int) == Some((field@, j as int)) && i < j
                <= n,
            None => parse_str_at(s@, i as int) is None,
        },
{
    proof {
        assert(!is_digit(':'));
    }
    match exec_parse_num_at(s, i, n, ':') {
        None => {
            proof {
                match parse_num_at(s@, i as int, ':') {
                    Some((v, j)) => {
                        if v > u64::MAX {
                            lemma_scan_digits_range(s@, i as int);
                            assert(j > 0);
                            assert(s@.len() <= usize::MAX);
                            assert(usize::MAX <= u64::MAX);
                            assert(j + v > s@.len());
                        }
                    },
                    None => {},
                }
            }
            None
        },
        Some((len64, j)) => {
            if ((n - j) as u64) < len64 {
                proof {
                    assert(j + len64 > s@.len());
                }
                None
            } else {
                let len = len64 as usize;
                let field = s.substring_char(j, j + len);
                Some((field, j + len))
            }
        },
    }
}

/// Decode a request body; returns `None` exactly on bodies that are not the
/// canonical encoding of any request.
pub fn decode_request(s: &str) -> (r: Option<Request>)
    ensures
        match r {
            Some(req) => spec_decode_request(s@) == Some(req@),
            None => spec_decode_request(s@) is None,
        },
{
    let n = s.unicode_len();
    if n == 0 {
        return None;
    }
    let c = s.get_char(0);
    if c == 'E' {
        match exec_parse_str_at(s, 1, n) {
            Some((path, i)) => {
                if i == n {
                    Some(Request::GetEntry { path: path.to_owned() })
                } else {
                    None
                }
            },
            None => None,
        }
    } else if c == 'L' {
        match exec_parse_str_at(s, 1, n) {
            Some((drive, i)) => match exec_parse_str_at(s, i, n) {
                Some((path, j)) => {
                    if j == n {
                        Some(
                            Request::GetEntryLength {
                                drive: drive.to_owned(),
                                path: path.to_owned(),
                            },
                        )
                    } else {
                        None
                    }
                },
                None => None,
            },
            None => None,
        }
    } else if c == 'C' {
        match exec_parse_str_at(s, 1, n) {
            Some((drive, i)) => match exec_parse_str_at(s, i, n) {
                Some((path, j)) => match exec_parse_num_at(s, j, n, ';') {
                    Some((offset, k)) => match exec_parse_num_at(s, k, n, ';') {
                        Some((length, m)) => {
                            if m == n {
                                Some(
                                    Request::GetFileChunk {
                                        drive: drive.to_owned(),
                                        path: path.to_owned(),
                                        offset,
                                        length,
                                    },
                                )
                            } else {
                                None
                            }
                        },
                        None => None,
                    },
                    None => None,
                },
                None => None,
            },
            None => None,
        }
    } else if c == 'S' {
        match exec_parse_str_at(s, 1, n) {
            Some((drive, i)) => match exec_parse_str_at(s, i, n) {
                Some((path, j)) => match exec_parse_num_at(s, j, n, ';') {
                    Some((size, k)) => {
                        if k == n {
                            Some(
                                Request::SetSize {
                                    drive: drive.to_owned(),
                                    path: path.to_owned(),
                                    size,
                                },
                            )
                        } else {
                            None
                        }
                    },
                    None => None,
                },
                None => None,
            },
            None => None,
        }
    } else if c == 'W' {
        match exec_parse_str_at(s, 1, n) {
            Some((drive, i)) => match exec_parse_str_at(s, i, n) {
                Some((path, j)) => match exec_parse_num_at(s, j, n, ';') {
                    Some((offset, k)) => {
                        if k == n {
                            Some(
                                Request::WriteOffset {
                                    drive: drive.to_owned(),
                                    path: path.to_owned(),
                                    offset,
                                },
                            )
                        } else {
                            None
                        }
                    },
                    None => None,
                },
                None => None,
            },
            None => None,
        }
    } else if c == 'A' {
        match exec_parse_str_at(s, 1, n) {
            Some((drive, i)) => match exec_parse_str_at(s, i, n) {
                Some((path, j)) => {
                    if n - j == 1 && s.get_char(j) == 'F' {
                        Some(
                            Request::Add {
                                drive: drive.to_owned(),
                                path: path.to_owned(),
                                entry_type: EntryType::NewFile,
                            },
                        )
                    } else {
                        None
                    }
                },
                None => None,
            },
            None => None,
        }
    } else {
        None
    }
}

} // verus!
