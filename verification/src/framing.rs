//! Message framing over a byte stream.
//!
//! A message arrives in one of two wire formats, detected per message: a
//! header block with a `Content-Length` header followed by exactly that many
//! payload bytes, or a single line that is itself the JSON payload. The
//! reader here works over an in-memory byte buffer and a cursor; the caller
//! owns the actual stream and hands the bytes in.

use vstd::prelude::*;

use vstd::string::StringSliceAdditionalSpecFns;

verus! {

/// The wire format one message arrived in, kept beside the message so the
/// reply can be framed the same way.
#[derive(Clone, Copy, PartialEq, Eq, Structural, Debug)]
pub enum Framing {
    HeaderDelimited,
    LineDelimited,
}

/// Why reading one message failed. Any of these desynchronizes the stream,
/// so the caller must stop reading after one.
#[derive(Clone, Copy, PartialEq, Eq, Structural, Debug)]
pub enum ReadError {
    /// A blank line ended the header block, but no `Content-Length` header
    /// was seen.
    MissingContentLength,
    /// A `Content-Length` header was present but its value is not a
    /// non-negative integer in range.
    InvalidContentLength,
    /// The stream ended before the declared number of payload bytes.
    TruncatedPayload,
    /// The stream ended in the middle of a header block.
    TruncatedHeaders,
    /// The payload bytes are not valid UTF-8.
    InvalidUtf8,
}

/// The result of trying to read one message.
pub enum ReadOutcome {
    /// The stream held no further message at all: clean shutdown.
    EndOfStream,
    /// One complete message; `next` is the cursor just past it.
    Message { payload: String, framing: Framing, next: usize },
    /// The stream is broken as described.
    Fail(ReadError),
}

/// The mathematical counterpart of [`ReadOutcome`].
pub enum SpecRead {
    End,
    Msg { payload: Seq<char>, framing: Framing, next: int },
    Fail(ReadError),
}

impl View for ReadOutcome {
    type V = SpecRead;

    open spec fn view(&self) -> SpecRead {
        match *self {
            ReadOutcome::EndOfStream => SpecRead::End,
            ReadOutcome::Message { payload, framing, next } => SpecRead::Msg {
                payload: payload@,
                framing,
                next: next as int,
            },
            ReadOutcome::Fail(e) => SpecRead::Fail(e),
        }
    }
}

/// The index of the first occurrence of `target` in `b` at or after `pos`,
/// or `b.len()` if there is none.
pub open spec fn find_byte(b: Seq<u8>, pos: int, target: u8) -> int
    decreases b.len() - pos when 0 <= pos <= b.len()
{
    if pos >= b.len() {
        b.len() as int
    } else if b[pos] == target {
        pos
    } else {
        find_byte(b, pos + 1, target)
    }
}

/// Where `find_byte` lands: between `pos` and the end, on the target if it
/// is in range, with no target before it.
pub proof fn lemma_find_byte(b: Seq<u8>, pos: int, target: u8)
    requires
        0 <= pos <= b.len(),
    ensures
        pos <= find_byte(b, pos, target) <= b.len(),
        find_byte(b, pos, target) < b.len() ==> b[find_byte(b, pos, target)] == target,
        forall|k: int| pos <= k < find_byte(b, pos, target) ==> b[k] != target,
    decreases b.len() - pos,
{
    if pos < b.len() && b[pos] != target {
        lemma_find_byte(b, pos + 1, target);
    }
}

/// Two buffers that agree on a range agree on where the first target within
/// that range sits.
pub proof fn lemma_find_byte_prefix(b1: Seq<u8>, b2: Seq<u8>, pos: int, e: int, target: u8)
    requires
        0 <= pos <= e,
        e <= b1.len(),
        e <= b2.len(),
        b1.subrange(pos, e) == b2.subrange(pos, e),
        find_byte(b1, pos, target) < e,
    ensures
        find_byte(b2, pos, target) == find_byte(b1, pos, target),
    decreases e - pos,
{
    lemma_find_byte(b1, pos, target);
    assert(pos < e);
    assert(b1[pos] == b2[pos]) by {
        assert(b1.subrange(pos, e)[0] == b1[pos]);
        assert(b2.subrange(pos, e)[0] == b2[pos]);
    }
    if b1[pos] != target {
        assert(b1.subrange(pos + 1, e) =~= b2.subrange(pos + 1, e)) by {
            assert forall|k: int| 0 <= k < e - pos - 1 implies #[trigger] b1.subrange(
                pos + 1,
                e,
            )[k] == b2.subrange(pos + 1, e)[k] by {
                assert(b1.subrange(pos, e)[k + 1] == b1[pos + 1 + k]);
                assert(b2.subrange(pos, e)[k + 1] == b2[pos + 1 + k]);
                assert(b1.subrange(pos + 1, e)[k] == b1[pos + 1 + k]);
                assert(b2.subrange(pos + 1, e)[k] == b2[pos + 1 + k]);
            }
        }
        lemma_find_byte_prefix(b1, b2, pos + 1, e, target);
    }
}

/// The line content with every trailing carriage return removed.
pub open spec fn trim_cr(s: Seq<u8>) -> Seq<u8>
    decreases s.len(),
{
    if s.len() > 0 && s.last() == 13 {
        trim_cr(s.drop_last())
    } else {
        s
    }
}

/// Whether a byte is ASCII whitespace as the header parser understands it.
pub open spec fn is_ws(b: u8) -> bool {
    b == 32 || b == 9 || b == 13 || b == 10
}

/// The sequence with leading whitespace removed.
pub open spec fn trim_start_ws(s: Seq<u8>) -> Seq<u8>
    decreases s.len(),
{
    if s.len() > 0 && is_ws(s[0]) {
        trim_start_ws(s.drop_first())
    } else {
        s
    }
}

/// The sequence with trailing whitespace removed.
pub open spec fn trim_end_ws(s: Seq<u8>) -> Seq<u8>
    decreases s.len(),
{
    if s.len() > 0 && is_ws(s.last()) {
        trim_end_ws(s.drop_last())
    } else {
        s
    }
}

/// The sequence with whitespace removed at both ends.
pub open spec fn trim_ws(s: Seq<u8>) -> Seq<u8> {
    trim_end_ws(trim_start_ws(s))
}

/// The bytes of the marker `"jsonrpc"`, quotes included.
pub open spec fn jsonrpc_marker() -> Seq<u8> {
    seq![34u8, 106u8, 115u8, 111u8, 110u8, 114u8, 112u8, 99u8, 34u8]
}

/// Whether the marker occurs anywhere in `t`.
pub open spec fn contains_jsonrpc(t: Seq<u8>) -> bool {
    exists|k: int| 0 <= k && k + 9 <= t.len() && #[trigger] t.subrange(k, k + 9) == jsonrpc_marker()
}

/// Whether a trimmed line is itself a complete JSON-RPC payload: it opens
/// an object and names the protocol.
pub open spec fn is_json_line(t: Seq<u8>) -> bool {
    t.len() > 0 && t[0] == 123 && contains_jsonrpc(t)
}

/// The lower-case form of one ASCII byte.
pub open spec fn lower(b: u8) -> u8 {
    if 65 <= b <= 90 {
        (b + 32) as u8
    } else {
        b
    }
}

/// The bytes of `content-length`, the one header name the reader honors.
pub open spec fn content_length_name() -> Seq<u8> {
    seq![99u8, 111u8, 110u8, 116u8, 101u8, 110u8, 116u8, 45u8, 108u8, 101u8, 110u8, 103u8, 116u8, 104u8]
}

/// Whether a header name, already trimmed, is `Content-Length` up to ASCII
/// case.
pub open spec fn is_content_length_name(name: Seq<u8>) -> bool {
    name.map_values(|b: u8| lower(b)) == content_length_name()
}

/// Whether every byte is an ASCII decimal digit.
pub open spec fn all_digits(s: Seq<u8>) -> bool {
    forall|k: int| 0 <= k < s.len() ==> 48 <= #[trigger] s[k] <= 57
}

/// The numeric value of a digit string, most significant digit first.
pub open spec fn dec_value(s: Seq<u8>) -> nat
    decreases s.len(),
{
    if s.len() == 0 {
        0
    } else {
        (dec_value(s.drop_last()) * 10 + (s.last() - 48)) as nat
    }
}

/// How a `Content-Length` value parses: after trimming, an optional plus
/// sign followed by at least one digit, in range for the machine.
pub open spec fn parse_len(v: Seq<u8>) -> Option<nat> {
    let t = if v.len() > 0 && v[0] == 43 {
        v.drop_first()
    } else {
        v
    };
    if t.len() > 0 && all_digits(t) && dec_value(t) <= usize::MAX as nat {
        Some(dec_value(t))
    } else {
        None
    }
}

/// What scanning the header block of one message finds.
pub enum HeaderScan {
    /// A line that is itself a complete JSON payload, before any blank line.
    JsonLine { payload: Seq<u8>, next: int },
    /// A blank line ended the block; `length` is the last `Content-Length`
    /// value seen, if any.
    Blank { length: Option<nat>, next: int },
    /// A `Content-Length` header failed to parse.
    BadLength,
    /// The buffer ended before a blank line.
    HitEnd,
}

/// Scans header lines from `pos`, carrying the last `Content-Length` seen.
pub open spec fn scan_headers(b: Seq<u8>, pos: int, length: Option<nat>) -> HeaderScan
    decreases b.len() - pos when 0 <= pos <= b.len() via scan_headers_decreases
{
    if pos >= b.len() {
        HeaderScan::HitEnd
    } else {
        let nl = find_byte(b, pos, 10);
        let next = if nl < b.len() {
            nl + 1
        } else {
            nl
        };
        let t = trim_cr(b.subrange(pos, nl));
        if is_json_line(t) {
            HeaderScan::JsonLine { payload: t, next }
        } else if t.len() == 0 {
            HeaderScan::Blank { length, next }
        } else {
            let c = find_byte(t, 0, 58);
            if c < t.len() {
                if is_content_length_name(trim_ws(t.subrange(0, c))) {
                    match parse_len(trim_ws(t.subrange(c + 1, t.len() as int))) {
                        Some(n) => scan_headers(b, next, Some(n)),
                        None => HeaderScan::BadLength,
                    }
                } else {
                    scan_headers(b, next, length)
                }
            } else {
                scan_headers(b, next, length)
            }
        }
    }
}

#[via_fn]
proof fn scan_headers_decreases(b: Seq<u8>, pos: int, length: Option<nat>) {
    if 0 <= pos < b.len() {
        lemma_find_byte(b, pos, 10);
    }
}

/// What reading one message from `b` at cursor `pos` yields.
pub open spec fn spec_read_message(b: Seq<u8>, pos: int) -> SpecRead {
    if pos >= b.len() {
        SpecRead::End
    } else {
        match scan_headers(b, pos, None) {
            HeaderScan::JsonLine { payload, next } => if vstd::utf8::valid_utf8(payload) {
                SpecRead::Msg {
                    payload: vstd::utf8::decode_utf8(payload),
                    framing: Framing::LineDelimited,
                    next,
                }
            } else {
                SpecRead::Fail(ReadError::InvalidUtf8)
            },
            HeaderScan::Blank { length: None, next } => SpecRead::Fail(
                ReadError::MissingContentLength,
            ),
            HeaderScan::Blank { length: Some(n), next } => if next + n <= b.len() {
                let body = b.subrange(next, next + n);
                if vstd::utf8::valid_utf8(body) {
                    SpecRead::Msg {
                        payload: vstd::utf8::decode_utf8(body),
                        framing: Framing::HeaderDelimited,
                        next: next + n,
                    }
                } else {
                    SpecRead::Fail(ReadError::InvalidUtf8)
                }
            } else {
                SpecRead::Fail(ReadError::TruncatedPayload)
            },
            HeaderScan::BadLength => SpecRead::Fail(ReadError::InvalidContentLength),
            HeaderScan::HitEnd => SpecRead::Fail(ReadError::TruncatedHeaders),
        }
    }
}

#[verifier::loop_isolation(false)]
fn find_nl(input: &Vec<u8>, from: usize) -> (nl: usize)
    requires
        from <= input@.len(),
    ensures
        nl == find_byte(input@, from as int, 10),
        from <= nl <= input@.len(),
{
    proof {
        lemma_find_byte(input@, from as int, 10);
    }
    let mut j = from;
    loop
        invariant
            from <= j <= input@.len(),
            find_byte(input@, from as int, 10) == find_byte(input@, j as int, 10),
        decreases input@.len() - j,
    {
        if j == input.len() {
            return j;
        }
        if input[j] == 10 {
            return j;
        }
        j = j + 1;
    }
}

/// Index past which the line holds only trailing carriage returns.
#[verifier::loop_isolation(false)]
fn trim_cr_end(line: &Vec<u8>) -> (te: usize)
    ensures
        te <= line@.len(),
        trim_cr(line@) == line@.subrange(0, te as int),
{
    proof {
        assert(line@.subrange(0, line@.len() as int) =~= line@);
    }
    let mut te = line.len();
    loop
        invariant
            te <= line@.len(),
            trim_cr(line@) == trim_cr(line@.subrange(0, te as int)),
        decreases te,
    {
        if te == 0 {
            proof {
                assert(line@.subrange(0, 0).len() == 0);
            }
            return 0;
        }
        let ghost s = line@.subrange(0, te as int);
        proof {
            assert(s.last() == line@[te - 1]);
        }
        if line[te - 1] == 13 {
            proof {
                assert(s.drop_last() =~= line@.subrange(0, te - 1));
            }
            te = te - 1;
        } else {
            return te;
        }
    }
}

fn marker_at(line: &Vec<u8>, te: usize, k: usize) -> (r: bool)
    requires
        te <= line@.len(),
        k + 9 <= te,
    ensures
        r == (line@.subrange(0, te as int).subrange(k as int, k as int + 9) == jsonrpc_marker()),
{
    let ghost t = line@.subrange(0, te as int);
    let ghost sub = t.subrange(k as int, k as int + 9);
    proof {
        assert forall|i: int| 0 <= i < 9 implies #[trigger] sub[i] == line@[k + i] by {
            assert(sub[i] == t[k + i]);
            assert(t[k + i] == line@[k + i]);
        }
    }
    let r = line[k] == 34 && line[k + 1] == 106 && line[k + 2] == 115 && line[k + 3] == 111
        && line[k + 4] == 110 && line[k + 5] == 114 && line[k + 6] == 112 && line[k + 7] == 99
        && line[k + 8] == 34;
    proof {
        if r {
            assert(sub =~= jsonrpc_marker());
        } else {
            if sub == jsonrpc_marker() {
                assert(sub[0] == 34 && sub[1] == 106 && sub[2] == 115 && sub[3] == 111 && sub[4]
                    == 110 && sub[5] == 114 && sub[6] == 112 && sub[7] == 99 && sub[8] == 34);
            }
        }
    }
    r
}

/// Decides whether the trimmed line `line[0..te]` is itself a JSON payload.
#[verifier::loop_isolation(false)]
fn is_json_line_exec(line: &Vec<u8>, te: usize) -> (r: bool)
    requires
        te <= line@.len(),
    ensures
        r == is_json_line(line@.subrange(0, te as int)),
{
    let ghost t = line@.subrange(0, te as int);
    if te == 0 {
        return false;
    }
    proof {
        assert(t[0] == line@[0]);
    }
    if line[0] != 123 {
        return false;
    }
    if te < 9 {
        proof {
            assert(!contains_jsonrpc(t));
        }
        return false;
    }
    let mut k: usize = 0;
    loop
        invariant
            te <= line@.len(),
            9 <= te,
            k <= te - 9 + 1,
            t == line@.subrange(0, te as int),
            forall|m: int| 0 <= m < k ==> #[trigger] t.subrange(m, m + 9) != jsonrpc_marker(),
        decreases te - k,
    {
        if k > te - 9 {
            proof {
                assert forall|m: int| !(0 <= m && m + 9 <= t.len() && #[trigger] t.subrange(
                    m,
                    m + 9,
                ) == jsonrpc_marker()) by {
                    if 0 <= m && m + 9 <= t.len() {
                        assert(m < k);
                    }
                }
            }
            return false;
        }
        if marker_at(line, te, k) {
            proof {
                assert(0 <= k as int && k as int + 9 <= t.len() && t.subrange(
                    k as int,
                    k as int + 9,
                ) == jsonrpc_marker());
            }
            return true;
        }
        k = k + 1;
    }
}

/// The position of the first colon in the trimmed line, or its length.
#[verifier::loop_isolation(false)]
fn find_colon(line: &Vec<u8>, te: usize) -> (c: usize)
    requires
        te <= line@.len(),
    ensures
        c as int == find_byte(line@.subrange(0, te as int), 0, 58),
        c <= te,
{
    let ghost t = line@.subrange(0, te as int);
    proof {
        lemma_find_byte(t, 0, 58);
    }
    let mut c: usize = 0;
    loop
        invariant
            c <= te,
            te <= line@.len(),
            t == line@.subrange(0, te as int),
            find_byte(t, 0, 58) == find_byte(t, c as int, 58),
        decreases te - c,
    {
        if c == te {
            return c;
        }
        proof {
            assert(t[c as int] == line@[c as int]);
        }
        if line[c] == 58 {
            return c;
        }
        c = c + 1;
    }
}

fn cl_byte(k: usize) -> (b: u8)
    requires
        k < 14,
    ensures
        b == content_length_name()[k as int],
{
    if k == 0 {
        99
    } else if k == 1 {
        111
    } else if k == 2 {
        110
    } else if k == 3 {
        116
    } else if k == 4 {
        101
    } else if k == 5 {
        110
    } else if k == 6 {
        116
    } else if k == 7 {
        45
    } else if k == 8 {
        108
    } else if k == 9 {
        101
    } else if k == 10 {
        110
    } else if k == 11 {
        103
    } else if k == 12 {
        116
    } else {
        104
    }
}

/// Decides whether `line[ns..ne]`, already trimmed, names `Content-Length`
/// up to ASCII case.
#[verifier::loop_isolation(false)]
fn is_cl_name(line: &Vec<u8>, ns: usize, ne: usize) -> (r: bool)
    requires
        ns <= ne,
        ne <= line@.len(),
    ensures
        r == is_content_length_name(line@.subrange(ns as int, ne as int)),
{
    let ghost name = line@.subrange(ns as int, ne as int);
    let ghost mapped = name.map_values(|b: u8| lower(b));
    proof {
        assert(mapped.len() == name.len());
        assert(content_length_name().len() == 14);
    }
    if ne - ns != 14 {
        return false;
    }
    let mut i: usize = 0;
    loop
        invariant
            i <= 14,
            ns + 14 == ne,
            ne <= line@.len(),
            name == line@.subrange(ns as int, ne as int),
            mapped == name.map_values(|b: u8| lower(b)),
            forall|m: int| 0 <= m < i ==> #[trigger] mapped[m] == content_length_name()[m],
        decreases 14 - i,
    {
        if i == 14 {
            proof {
                assert(mapped =~= content_length_name());
            }
            return true;
        }
        let b = line[ns + i];
        let lowered = if b >= 65 && b <= 90 {
            b + 32
        } else {
            b
        };
        proof {
            assert(name[i as int] == line@[ns + i]);
            assert(mapped[i as int] == lower(name[i as int]));
        }
        if lowered != cl_byte(i) {
            proof {
                if mapped == content_length_name() {
                    assert(mapped[i as int] == content_length_name()[i as int]);
                }
            }
            return false;
        }
        i = i + 1;
    }
}

#[verifier::loop_isolation(false)]
fn skip_ws_start(line: &Vec<u8>, from: usize, to: usize) -> (fs: usize)
    requires
        from <= to,
        to <= line@.len(),
    ensures
        from <= fs <= to,
        trim_start_ws(line@.subrange(from as int, to as int)) == line@.subrange(
            fs as int,
            to as int,
        ),
{
    let mut fs = from;
    loop
        invariant
            from <= fs <= to,
            to <= line@.len(),
            trim_start_ws(line@.subrange(from as int, to as int)) == trim_start_ws(
                line@.subrange(fs as int, to as int),
            ),
        decreases to - fs,
    {
        let ghost cur = line@.subrange(fs as int, to as int);
        if fs == to {
            proof {
                assert(cur.len() == 0);
            }
            return fs;
        }
        proof {
            assert(cur[0] == line@[fs as int]);
        }
        let b = line[fs];
        if b == 32 || b == 9 || b == 13 || b == 10 {
            proof {
                assert(cur.drop_first() =~= line@.subrange(fs + 1, to as int));
            }
            fs = fs + 1;
        } else {
            return fs;
        }
    }
}

#[verifier::loop_isolation(false)]
fn skip_ws_end(line: &Vec<u8>, from: usize, to: usize) -> (te: usize)
    requires
        from <= to,
        to <= line@.len(),
    ensures
        from <= te <= to,
        trim_end_ws(line@.subrange(from as int, to as int)) == line@.subrange(
            from as int,
            te as int,
        ),
{
    let mut te = to;
    loop
        invariant
            from <= te <= to,
            to <= line@.len(),
            trim_end_ws(line@.subrange(from as int, to as int)) == trim_end_ws(
                line@.subrange(from as int, te as int),
            ),
        decreases te,
    {
        let ghost cur = line@.subrange(from as int, te as int);
        if te == from {
            proof {
                assert(cur.len() == 0);
            }
            return te;
        }
        proof {
            assert(cur.last() == line@[te - 1]);
        }
        let b = line[te - 1];
        if b == 32 || b == 9 || b == 13 || b == 10 {
            proof {
                assert(cur.drop_last() =~= line@.subrange(from as int, te - 1));
            }
            te = te - 1;
        } else {
            return te;
        }
    }
}

/// The bounds of `line[from..to]` with ASCII whitespace trimmed at both
/// ends.
fn trim_ws_range(line: &Vec<u8>, from: usize, to: usize) -> (r: (usize, usize))
    requires
        from <= to,
        to <= line@.len(),
    ensures
        from <= r.0 <= r.1 <= to,
        trim_ws(line@.subrange(from as int, to as int)) == line@.subrange(r.0 as int, r.1 as int),
{
    let fs = skip_ws_start(line, from, to);
    let te = skip_ws_end(line, fs, to);
    (fs, te)
}

/// The value of a digit prefix never exceeds the value of the whole string.
proof fn lemma_dec_value_mono(t: Seq<u8>, m: int)
    requires
        0 <= m <= t.len(),
        all_digits(t),
    ensures
        dec_value(t.subrange(0, m)) <= dec_value(t),
    decreases t.len() - m,
{
    if m < t.len() {
        lemma_dec_value_mono(t, m + 1);
        let longer = t.subrange(0, m + 1);
        assert(longer.drop_last() =~= t.subrange(0, m));
        assert(longer.last() == t[m]);
        assert(48 <= t[m] <= 57);
        assert(dec_value(longer) == dec_value(t.subrange(0, m)) * 10 + (t[m] - 48));
        assert(dec_value(t.subrange(0, m)) <= dec_value(longer));
    } else {
        assert(t.subrange(0, m) =~= t);
    }
}

/// The mathematical value an `Option<usize>` stands for.
pub open spec fn opt_nat(r: Option<usize>) -> Option<nat> {
    match r {
        Some(n) => Some(n as nat),
        None => None,
    }
}

/// Parses `line[vs..ve]` (already trimmed) as a `Content-Length` value.
#[verifier::loop_isolation(false)]
fn parse_len_exec(line: &Vec<u8>, vs: usize, ve: usize) -> (r: Option<usize>)
    requires
        vs <= ve,
        ve <= line@.len(),
    ensures
        opt_nat(r) == parse_len(line@.subrange(vs as int, ve as int)),
{
    let ghost v = line@.subrange(vs as int, ve as int);
    let mut p = vs;
    proof {
        if v.len() > 0 {
            assert(v[0] == line@[vs as int]);
        }
    }
    if p < ve && line[p] == 43 {
        proof {
            assert(v.len() > 0 && v[0] == 43);
            assert(v.drop_first() =~= line@.subrange(vs + 1, ve as int));
        }
        p = p + 1;
    }
    let ghost t = line@.subrange(p as int, ve as int);
    proof {
        if v.len() > 0 && v[0] == 43 {
            assert(t == v.drop_first());
        } else {
            assert(t =~= v);
        }
    }
    if p == ve {
        proof {
            assert(t.len() == 0);
        }
        return None;
    }
    let mut acc: usize = 0;
    let mut k = p;
    loop
        invariant
            p <= k <= ve,
            ve <= line@.len(),
            t == line@.subrange(p as int, ve as int),
            p < ve,
            parse_len(v) == (if t.len() > 0 && all_digits(t) && dec_value(t) <= usize::MAX as nat {
                Some(dec_value(t))
            } else {
                None::<nat>
            }),
            acc as nat == dec_value(t.subrange(0, k - p)),
            forall|m: int| 0 <= m < k - p ==> 48 <= #[trigger] t[m] <= 57,
        decreases ve - k,
    {
        if k == ve {
            proof {
                assert(t.subrange(0, k - p) =~= t);
                assert(all_digits(t));
            }
            return Some(acc);
        }
        let d = line[k];
        proof {
            assert(t[k - p] == line@[k as int]);
        }
        if d < 48 || d > 57 {
            proof {
                assert(!all_digits(t));
            }
            return None;
        }
        let ghost prefix = t.subrange(0, k - p + 1);
        proof {
            assert(prefix.drop_last() =~= t.subrange(0, k - p));
            assert(prefix.last() == t[k - p]);
        }
        let step = match acc.checked_mul(10) {
            Some(x) => x.checked_add((d - 48) as usize),
            None => None,
        };
        match step {
            Some(x) => {
                acc = x;
            },
            None => {
                proof {
                    assert(dec_value(prefix) > usize::MAX as nat);
                    if all_digits(t) {
                        lemma_dec_value_mono(t, k - p + 1);
                        assert(dec_value(t) > usize::MAX as nat);
                    }
                }
                return None;
            },
        }
        k = k + 1;
    }
}

/// Reads one message from `input` starting at `pos`.
///
/// The outcome is exactly [`spec_read_message`]: either the end of the
/// stream, one complete message with the cursor just past it, or the error
/// that broke the stream.
#[verifier::loop_isolation(false)]
pub fn read_message(input: &Vec<u8>, pos: usize) -> (r: ReadOutcome)
    requires
        pos <= input@.len(),
    ensures
        r@ == spec_read_message(input@, pos as int),
{
    let ghost b = input@;
    if pos == input.len() {
        return ReadOutcome::EndOfStream;
    }
    let mut cur = pos;
    let mut length: Option<usize> = None;
    loop
        invariant
            pos <= cur <= b.len(),
            pos < b.len(),
            b == input@,
            scan_headers(b, pos as int, None) == scan_headers(
                b,
                cur as int,
                match length {
                    Some(n) => Some(n as nat),
                    None => None,
                },
            ),
        decreases b.len() - cur,
    {
        let ghost glen: Option<nat> = match length {
            Some(n) => Some(n as nat),
            None => None,
        };
        if cur == input.len() {
            assert(scan_headers(b, cur as int, glen) == HeaderScan::HitEnd);
            return ReadOutcome::Fail(ReadError::TruncatedHeaders);
        }
        let nl = find_nl(input, cur);
        let next = if nl < input.len() {
            nl + 1
        } else {
            nl
        };
        let line = vstd::slice::slice_to_vec(
            vstd::slice::slice_subrange(input.as_slice(), cur, nl),
        );
        proof {
            assert(line@ =~= b.subrange(cur as int, nl as int));
        }
        let te = trim_cr_end(&line);
        let ghost t = trim_cr(b.subrange(cur as int, nl as int));
        proof {
            assert(t == line@.subrange(0, te as int));
        }
        if is_json_line_exec(&line, te) {
            assert(scan_headers(b, cur as int, glen) == HeaderScan::JsonLine {
                payload: t,
                next: next as int,
            });
            let payload_bytes = vstd::slice::slice_to_vec(
                vstd::slice::slice_subrange(line.as_slice(), 0, te),
            );
            proof {
                assert(payload_bytes@ =~= t);
            }
            match bytes_to_string(payload_bytes) {
                Ok(payload) => {
                    return ReadOutcome::Message {
                        payload,
                        framing: Framing::LineDelimited,
                        next,
                    };
                },
                Err(_) => {
                    return ReadOutcome::Fail(ReadError::InvalidUtf8);
                },
            }
        }
        if te == 0 {
            assert(scan_headers(b, cur as int, glen) == HeaderScan::Blank {
                length: glen,
                next: next as int,
            });
            match length {
                None => {
                    return ReadOutcome::Fail(ReadError::MissingContentLength);
                },
                Some(n) => {
                    if n <= input.len() - next {
                        let body = vstd::slice::slice_to_vec(
                            vstd::slice::slice_subrange(input.as_slice(), next, next + n),
                        );
                        proof {
                            assert(body@ =~= b.subrange(next as int, next as int + n as int));
                        }
                        match bytes_to_string(body) {
                            Ok(payload) => {
                                return ReadOutcome::Message {
                                    payload,
                                    framing: Framing::HeaderDelimited,
                                    next: next + n,
                                };
                            },
                            Err(_) => {
                                return ReadOutcome::Fail(ReadError::InvalidUtf8);
                            },
                        }
                    } else {
                        return ReadOutcome::Fail(ReadError::TruncatedPayload);
                    }
                },
            }
        }
        // An ordinary header line: honor `Content-Length`, ignore the rest.
        let c = find_colon(&line, te);
        proof {
            assert(line@.subrange(0, te as int) == t);
        }
        if c < te {
            assert(find_byte(t, 0, 58) == c);
            let (ns, ne) = trim_ws_range(&line, 0, c);
            proof {
                assert(t.subrange(0, c as int) =~= line@.subrange(0, c as int));
            }
            if is_cl_name(&line, ns, ne) {
                let (vs2, ve2) = trim_ws_range(&line, c + 1, te);
                proof {
                    assert(t.subrange(c as int + 1, t.len() as int) =~= line@.subrange(
                        c as int + 1,
                        te as int,
                    ));
                }
                match parse_len_exec(&line, vs2, ve2) {
                    Some(n) => {
                        length = Some(n);
                        assert(scan_headers(b, cur as int, glen) == scan_headers(
                            b,
                            next as int,
                            Some(n as nat),
                        ));
                    },
                    None => {
                        assert(scan_headers(b, cur as int, glen) == HeaderScan::BadLength);
                        return ReadOutcome::Fail(ReadError::InvalidContentLength);
                    },
                }
            } else {
                assert(scan_headers(b, cur as int, glen) == scan_headers(b, next as int, glen));
            }
        } else {
            assert(scan_headers(b, cur as int, glen) == scan_headers(b, next as int, glen));
        }
        cur = next;
    }
}

/// Relies on `String::from_utf8` from the standard library: it succeeds
/// exactly on valid UTF-8 input and decodes it.
#[verifier::external_body]
fn bytes_to_string(v: Vec<u8>) -> (r: Result<String, ()>)
    ensures
        r is Ok <==> vstd::utf8::valid_utf8(v@),
        r is Ok ==> r->Ok_0@ == vstd::utf8::decode_utf8(v@),
{
    match String::from_utf8(v) {
        Ok(s) => Ok(s),
        Err(_) => Err(()),
    }
}

/// The decimal rendering of a non-negative integer, as ASCII bytes.
pub open spec fn dec_digits_bytes(n: nat) -> Seq<u8>
    decreases n,
{
    if n < 10 {
        seq![(48 + n) as u8]
    } else {
        dec_digits_bytes(n / 10) + seq![(48 + n % 10) as u8]
    }
}

/// The bytes of `Content-Length: `, the header the writer emits.
pub open spec fn header_prefix() -> Seq<u8> {
    seq![67u8, 111u8, 110u8, 116u8, 101u8, 110u8, 116u8, 45u8, 76u8, 101u8, 110u8, 103u8, 116u8, 104u8, 58u8, 32u8]
}

/// The bytes that carry one outgoing payload under the given framing: a
/// `Content-Length` header block followed by exactly the payload bytes, or
/// the payload as one newline-terminated line.
pub open spec fn spec_frame(payload: Seq<u8>, framing: Framing) -> Seq<u8> {
    match framing {
        Framing::HeaderDelimited => header_prefix() + dec_digits_bytes(payload.len()) + seq![
            13u8,
            10u8,
            13u8,
            10u8,
        ] + payload,
        Framing::LineDelimited => payload + seq![10u8],
    }
}

/// Appends the decimal rendering of `n` to `out` as ASCII bytes.
fn push_dec_bytes(out: &mut Vec<u8>, n: u64)
    ensures
        final(out)@ == old(out)@ + dec_digits_bytes(n as nat),
    decreases n,
{
    if n < 10 {
        out.push(48 + (n as u8));
        assert(out@ =~= old(out)@ + dec_digits_bytes(n as nat));
    } else {
        push_dec_bytes(out, n / 10);
        out.push(48 + ((n % 10) as u8));
        assert(out@ =~= old(out)@ + dec_digits_bytes(n as nat));
    }
}

/// Frames one outgoing payload in the given wire format.
#[verifier::loop_isolation(false)]
pub fn frame_message(payload: &str, framing: Framing) -> (out: Vec<u8>)
    ensures
        out@ == spec_frame(payload.spec_bytes(), framing),
{
    let bytes = payload.as_bytes_vec();
    match framing {
        Framing::HeaderDelimited => {
            let mut out: Vec<u8> = Vec::new();
            out.push(67);
            out.push(111);
            out.push(110);
            out.push(116);
            out.push(101);
            out.push(110);
            out.push(116);
            out.push(45);
            out.push(76);
            out.push(101);
            out.push(110);
            out.push(103);
            out.push(116);
            out.push(104);
            out.push(58);
            out.push(32);
            assert(out@ =~= header_prefix());
            push_dec_bytes(&mut out, bytes.len() as u64);
            out.push(13);
            out.push(10);
            out.push(13);
            out.push(10);
            let ghost before_body = out@;
            let mut i: usize = 0;
            while i < bytes.len()
                invariant
                    i <= bytes@.len(),
                    out@ == before_body + bytes@.subrange(0, i as int),
                decreases bytes@.len() - i,
            {
                out.push(bytes[i]);
                proof {
                    assert(out@ =~= before_body + bytes@.subrange(0, i + 1));
                }
                i = i + 1;
            }
            proof {
                assert(bytes@.subrange(0, bytes@.len() as int) =~= bytes@);
                assert(out@ =~= spec_frame(payload.spec_bytes(), framing));
            }
            out
        },
        Framing::LineDelimited => {
            let mut out = bytes;
            out.push(10);
            assert(out@ =~= spec_frame(payload.spec_bytes(), framing));
            out
        },
    }
}

/// A header-delimited message ends exactly `Content-Length` bytes after its
/// header block, whatever those bytes hold: embedded newlines in the payload
/// do not end it early, and no extra byte is taken.
pub proof fn lemma_header_delimited_consumes_exactly(b: Seq<u8>, pos: int, n: nat, body_start: int)
    requires
        0 <= pos < b.len(),
        scan_headers(b, pos, None) == (HeaderScan::Blank { length: Some(n), next: body_start }),
        body_start + n <= b.len(),
        vstd::utf8::valid_utf8(b.subrange(body_start, body_start + n as int)),
    ensures
        spec_read_message(b, pos) == (SpecRead::Msg {
            payload: vstd::utf8::decode_utf8(b.subrange(body_start, body_start + n as int)),
            framing: Framing::HeaderDelimited,
            next: body_start + n as int,
        }),
{
}

/// A line whose trimmed content opens an object and names the protocol is
/// itself the complete message: the reader returns it with line framing and
/// stops right after the line.
pub proof fn lemma_json_line_is_message(b: Seq<u8>, pos: int)
    requires
        0 <= pos < b.len(),
        is_json_line(trim_cr(b.subrange(pos, find_byte(b, pos, 10)))),
    ensures
        ({
            let nl = find_byte(b, pos, 10);
            let t = trim_cr(b.subrange(pos, nl));
            let next = if nl < b.len() {
                nl + 1
            } else {
                nl
            };
            spec_read_message(b, pos) == (if vstd::utf8::valid_utf8(t) {
                SpecRead::Msg {
                    payload: vstd::utf8::decode_utf8(t),
                    framing: Framing::LineDelimited,
                    next,
                }
            } else {
                SpecRead::Fail(ReadError::InvalidUtf8)
            })
        }),
{
    lemma_find_byte(b, pos, 10);
}

/// Reading a message whose first line is a complete JSON payload never
/// looks past that line: any two buffers that agree on the line, its
/// newline included, read the same message, whatever follows.
pub proof fn lemma_json_line_needs_no_further_input(b1: Seq<u8>, b2: Seq<u8>, pos: int)
    requires
        0 <= pos < b1.len(),
        pos < b2.len(),
        find_byte(b1, pos, 10) < b1.len(),
        find_byte(b1, pos, 10) + 1 <= b2.len(),
        b1.subrange(pos, find_byte(b1, pos, 10) + 1) == b2.subrange(
            pos,
            find_byte(b1, pos, 10) + 1,
        ),
        is_json_line(trim_cr(b1.subrange(pos, find_byte(b1, pos, 10)))),
    ensures
        spec_read_message(b2, pos) == spec_read_message(b1, pos),
        spec_read_message(b1, pos) matches SpecRead::Msg { framing, next, .. } ==> framing
            == Framing::LineDelimited && next == find_byte(b1, pos, 10) + 1,
{
    let nl = find_byte(b1, pos, 10);
    lemma_find_byte(b1, pos, 10);
    lemma_find_byte_prefix(b1, b2, pos, nl + 1, 10);
    assert(find_byte(b2, pos, 10) == nl);
    assert(b1.subrange(pos, nl) =~= b2.subrange(pos, nl)) by {
        assert forall|k: int| 0 <= k < nl - pos implies #[trigger] b1.subrange(pos, nl)[k]
            == b2.subrange(pos, nl)[k] by {
            assert(b1.subrange(pos, nl + 1)[k] == b1[pos + k]);
            assert(b2.subrange(pos, nl + 1)[k] == b2[pos + k]);
            assert(b1.subrange(pos, nl)[k] == b1[pos + k]);
            assert(b2.subrange(pos, nl)[k] == b2[pos + k]);
        }
    }
    lemma_json_line_is_message(b1, pos);
    lemma_json_line_is_message(b2, pos);
}

} // verus!
