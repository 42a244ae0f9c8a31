//! Volume normalization of WAV buffers, and the cache rules around it.
//!
//! The caller reads the source file and hands the bytes in;
//! [`normalize_wav`] validates the container, walks its chunks, and scales
//! every 16-bit PCM sample by an integer volume percentage, rounding to
//! nearest and clamping. `None` means the buffer is left alone and the
//! caller must fall back to the unmodified source — by design that is never
//! an error. The cache key and freshness rule live here too.

use vstd::prelude::*;

use crate::text::{dec_digits, push_dec_u64};

verus! {

/// The little-endian 16-bit value at offset `i`.
pub open spec fn le16(b: Seq<u8>, i: int) -> int {
    b[i] + 256 * b[i + 1]
}

/// The little-endian 32-bit value at offset `i`.
pub open spec fn le32(b: Seq<u8>, i: int) -> int {
    b[i] + 256 * b[i + 1] + 65536 * b[i + 2] + 16777216 * b[i + 3]
}

/// Whether the buffer opens with a `RIFF`/`WAVE` container header.
pub open spec fn is_riff_wave(b: Seq<u8>) -> bool {
    b.len() >= 12 && b.subrange(0, 4) == seq![82u8, 73u8, 70u8, 70u8] && b.subrange(8, 12)
        == seq![87u8, 65u8, 86u8, 69u8]
}

/// Walks the chunk list from `cursor`: each chunk is a 4-byte tag, a 4-byte
/// little-endian size, and that many content bytes, padded to an even
/// boundary. Later `fmt ` and `data` chunks win over earlier ones; a chunk
/// that runs past the buffer ends the walk. Yields the format fields
/// `(format tag, channels, bits per sample)` and the data region
/// `(start, size)`.
pub open spec fn scan_chunks(
    b: Seq<u8>,
    cursor: int,
    fmt: Option<(int, int, int)>,
    data: Option<(int, int)>,
) -> (Option<(int, int, int)>, Option<(int, int)>)
    decreases b.len() + 2 - cursor when 0 <= cursor
{
    if cursor + 8 > b.len() {
        (fmt, data)
    } else {
        let size = le32(b, cursor + 4);
        let start = cursor + 8;
        let end = start + size;
        if end > b.len() {
            (fmt, data)
        } else {
            let fmt2 = if b.subrange(cursor, cursor + 4) == seq![102u8, 109u8, 116u8, 32u8] && size
                >= 16 {
                Some((le16(b, start), le16(b, start + 2), le16(b, start + 14)))
            } else {
                fmt
            };
            let data2 = if b.subrange(cursor, cursor + 4) == seq![100u8, 97u8, 116u8, 97u8] {
                Some((start, size))
            } else {
                data
            };
            scan_chunks(b, end + (if size % 2 == 1 { 1int } else { 0int }), fmt2, data2)
        }
    }
}

/// The signed value a 16-bit little-endian sample stores.
pub open spec fn as_signed(v: int) -> int {
    if v < 32768 {
        v
    } else {
        v - 65536
    }
}

/// A non-negative magnitude scaled by `vol` percent, rounded to nearest
/// with halves away from zero.
pub open spec fn round_mag(m: int, vol: int) -> int {
    (m * vol + 50) / 100
}

/// One sample scaled by `vol` percent: rounded to nearest, away from zero
/// on halves, and clamped to the 16-bit signed range.
pub open spec fn scale_sample(s: int, vol: int) -> int {
    if s >= 0 {
        if round_mag(s, vol) > 32767 {
            32767
        } else {
            round_mag(s, vol)
        }
    } else {
        if round_mag(-s, vol) > 32768 {
            -32768
        } else {
            -round_mag(-s, vol)
        }
    }
}

/// The unsigned 16-bit cell a signed value is stored back into.
pub open spec fn to_unsigned(x: int) -> int {
    if x < 0 {
        x + 65536
    } else {
        x
    }
}

/// Byte `i` of the scaled buffer: inside the sample region, the matching
/// byte of its pair's scaled sample; everywhere else, the original byte. A
/// trailing odd byte of the region is left alone.
pub open spec fn scaled_byte_at(b: Seq<u8>, vol: int, ds: int, de: int, i: int) -> u8 {
    let p = ds + 2 * ((i - ds) / 2);
    if ds <= i < de && p + 1 < de {
        let u = to_unsigned(scale_sample(as_signed(le16(b, p)), vol));
        if i == p {
            (u % 256) as u8
        } else {
            (u / 256) as u8
        }
    } else {
        b[i]
    }
}

/// The whole buffer with its sample region scaled.
pub open spec fn scaled_wav(b: Seq<u8>, vol: int, ds: int, de: int) -> Seq<u8> {
    Seq::new(b.len(), |i: int| scaled_byte_at(b, vol, ds, de, i))
}

/// What normalization yields for a buffer and a volume percentage: the
/// scaled buffer, or `None` whenever the input is to be used unchanged — a
/// volume outside the unit range, a malformed container, a missing chunk,
/// or an encoding other than 16-bit integer PCM.
pub open spec fn wav_norm_result(b: Seq<u8>, vol: int) -> Option<Seq<u8>> {
    if vol > 100 || !is_riff_wave(b) {
        None
    } else {
        match scan_chunks(b, 12, None, None) {
            (Some((tag, _channels, bits)), Some((ds, size))) => if tag == 1 && bits == 16 {
                let de = if ds + size > b.len() {
                    b.len() as int
                } else {
                    ds + size
                };
                Some(scaled_wav(b, vol, ds, de))
            } else {
                None
            },
            _ => None,
        }
    }
}

/// Decides whether the four bytes at `cursor` are exactly the given tag.
fn tag_is(data: &Vec<u8>, cursor: usize, t0: u8, t1: u8, t2: u8, t3: u8) -> (r: bool)
    requires
        cursor + 4 <= data@.len(),
    ensures
        r == (data@.subrange(cursor as int, cursor as int + 4) == seq![t0, t1, t2, t3]),
{
    let n = data.len();
    let ghost sub = data@.subrange(cursor as int, cursor as int + 4);
    proof {
        assert(cursor + 4 <= n);
        assert(sub[0] == data@[cursor as int]);
        assert(sub[1] == data@[cursor as int + 1]);
        assert(sub[2] == data@[cursor as int + 2]);
        assert(sub[3] == data@[cursor as int + 3]);
    }
    let r = data[cursor] == t0 && data[cursor + 1] == t1 && data[cursor + 2] == t2 && data[cursor
        + 3] == t3;
    proof {
        if r {
            assert(sub =~= seq![t0, t1, t2, t3]);
        } else {
            if sub == seq![t0, t1, t2, t3] {
                assert(sub[0] == t0 && sub[1] == t1 && sub[2] == t2 && sub[3] == t3);
            }
        }
    }
    r
}

fn le16_exec(data: &Vec<u8>, i: usize) -> (r: u32)
    requires
        i + 2 <= data@.len(),
    ensures
        r as int == le16(data@, i as int),
        r < 65536,
{
    let n = data.len();
    proof {
        assert(i + 2 <= n);
    }
    (data[i] as u32) + 256 * (data[i + 1] as u32)
}

fn le32_exec(data: &Vec<u8>, i: usize) -> (r: u32)
    requires
        i + 4 <= data@.len(),
    ensures
        r as int == le32(data@, i as int),
{
    let n = data.len();
    proof {
        assert(i + 4 <= n);
    }
    (data[i] as u32) + 256 * (data[i + 1] as u32) + 65536 * (data[i + 2] as u32) + 16777216 * (
    data[i + 3] as u32)
}

/// Scales the sample region of `data` in place.
#[verifier::loop_isolation(false)]
fn scale_region(data: &mut Vec<u8>, vol: u32, ds: usize, de: usize)
    requires
        vol <= 100,
        ds <= de <= old(data)@.len(),
    ensures
        final(data)@ == scaled_wav(old(data)@, vol as int, ds as int, de as int),
{
    let ghost b = data@;
    let n = data.len();
    proof {
        assert(de <= n);
    }
    let mut i = ds;
    loop
        invariant
            ds <= i,
            i <= de || i == ds,
            de <= b.len(),
            data@.len() == b.len(),
            (i - ds) % 2 == 0,
            forall|j: int|
                ds <= j < i && j < de ==> data@[j] == scaled_byte_at(
                    b,
                    vol as int,
                    ds as int,
                    de as int,
                    j,
                ),
            forall|j: int| 0 <= j < b.len() && !(ds <= j < i) ==> data@[j] == b[j],
        decreases de - i,
    {
        if i >= de || i + 1 >= de {
            break;
        }
        let lo = data[i] as u32;
        let hi = data[i + 1] as u32;
        let v: u32 = lo + 256 * hi;
        proof {
            assert(data@[i as int] == b[i as int]);
            assert(data@[i as int + 1] == b[i as int + 1]);
            assert(v as int == le16(b, i as int));
        }
        let s: i32 = if v >= 32768 {
            (v as i32) - 65536
        } else {
            v as i32
        };
        let mag: i32 = if s >= 0 {
            s
        } else {
            -s
        };
        proof {
            assert(0 <= mag as int * (vol as int) <= 3276800) by (nonlinear_arith)
                requires
                    0 <= mag as int <= 32768,
                    0 <= vol as int <= 100,
            ;
        }
        let scaled_mag: i32 = (mag * (vol as i32) + 50) / 100;
        let clamped: i32 = if s >= 0 {
            if scaled_mag > 32767 {
                32767
            } else {
                scaled_mag
            }
        } else {
            if scaled_mag > 32768 {
                -32768
            } else {
                -scaled_mag
            }
        };
        let u: i32 = if clamped < 0 {
            clamped + 65536
        } else {
            clamped
        };
        proof {
            assert(s as int == as_signed(le16(b, i as int)));
            assert(scaled_mag as int == round_mag(mag as int, vol as int));
            assert(clamped as int == scale_sample(s as int, vol as int));
            assert(u as int == to_unsigned(clamped as int));
            assert(0 <= u < 65536);
        }
        let lo2: u8 = (u % 256) as u8;
        let hi2: u8 = (u / 256) as u8;
        vstd::std_specs::core::index_set(data, i, lo2);
        vstd::std_specs::core::index_set(data, i + 1, hi2);
        proof {
            let p = ds as int + 2 * ((i as int - ds as int) / 2);
            assert(p == i as int);
            assert((i as int + 1 - ds as int) / 2 == (i as int - ds as int) / 2);
            assert(data@[i as int] == scaled_byte_at(b, vol as int, ds as int, de as int, i as int));
            assert(data@[i as int + 1] == scaled_byte_at(
                b,
                vol as int,
                ds as int,
                de as int,
                i as int + 1,
            ));
        }
        i = i + 2;
    }
    proof {
        assert forall|j: int| 0 <= j < b.len() implies data@[j] == scaled_byte_at(
            b,
            vol as int,
            ds as int,
            de as int,
            j,
        ) by {
            if !(ds <= j < i) {
                if ds <= j < de {
                    let p = ds as int + 2 * ((j - ds as int) / 2);
                    assert(j >= i);
                    assert(p >= i as int);
                    assert(p + 1 >= de);
                }
            }
        }
        assert(data@ =~= scaled_wav(b, vol as int, ds as int, de as int));
    }
}

/// Normalizes a WAV buffer to `vol_pct` percent of its level.
///
/// Returns the scaled buffer, or `None` exactly when [`wav_norm_result`]
/// says the source must be used unchanged.
#[verifier::loop_isolation(false)]
pub fn normalize_wav(data: Vec<u8>, vol_pct: u32) -> (r: Option<Vec<u8>>)
    ensures
        r is Some <==> wav_norm_result(data@, vol_pct as int) is Some,
        r is Some ==> Some(r->0@) == wav_norm_result(data@, vol_pct as int),
{
    let ghost b = data@;
    if vol_pct > 100 {
        return None;
    }
    if data.len() < 12 {
        return None;
    }
    if !tag_is(&data, 0, 82, 73, 70, 70) {
        return None;
    }
    if !tag_is(&data, 8, 87, 65, 86, 69) {
        return None;
    }
    let mut cursor: usize = 12;
    let mut fmt: Option<(u32, u32, u32)> = None;
    let mut dat: Option<(usize, usize)> = None;
    loop
        invariant
            12 <= cursor,
            b == data@,
            (dat matches Some(d) ==> d.0 as int + d.1 as int <= b.len()),
            scan_chunks(b, 12, None, None) == scan_chunks(
                b,
                cursor as int,
                match fmt {
                    Some((t, c, bits)) => Some((t as int, c as int, bits as int)),
                    None => None,
                },
                match dat {
                    Some((s, z)) => Some((s as int, z as int)),
                    None => None,
                },
            ),
        decreases b.len() + 2 - cursor,
    {
        let ghost gfmt: Option<(int, int, int)> = match fmt {
            Some((t, c, bits)) => Some((t as int, c as int, bits as int)),
            None => None,
        };
        let ghost gdat: Option<(int, int)> = match dat {
            Some((s, z)) => Some((s as int, z as int)),
            None => None,
        };
        let n = data.len();
        if cursor > n || n - cursor < 8 {
            assert(scan_chunks(b, cursor as int, gfmt, gdat) == (gfmt, gdat));
            break;
        }
        let size32 = le32_exec(&data, cursor + 4);
        let size = size32 as usize;
        let start = cursor + 8;
        let end = match start.checked_add(size) {
            Some(e) => e,
            None => {
                assert(scan_chunks(b, cursor as int, gfmt, gdat) == (gfmt, gdat));
                break;
            },
        };
        if end > data.len() {
            assert(scan_chunks(b, cursor as int, gfmt, gdat) == (gfmt, gdat));
            break;
        }
        if tag_is(&data, cursor, 102, 109, 116, 32) && size >= 16 {
            let tag = le16_exec(&data, start);
            let channels = le16_exec(&data, start + 2);
            let bits = le16_exec(&data, start + 14);
            fmt = Some((tag, channels, bits));
        }
        if tag_is(&data, cursor, 100, 97, 116, 97) {
            dat = Some((start, size));
        }
        let ghost gfmt2: Option<(int, int, int)> = match fmt {
            Some((t, c, bits)) => Some((t as int, c as int, bits as int)),
            None => None,
        };
        let ghost gdat2: Option<(int, int)> = match dat {
            Some((sx, z)) => Some((sx as int, z as int)),
            None => None,
        };
        proof {
            assert(scan_chunks(b, cursor as int, gfmt, gdat) == scan_chunks(
                b,
                end as int + (if size as int % 2 == 1 { 1int } else { 0int }),
                gfmt2,
                gdat2,
            ));
        }
        if size % 2 == 1 && end < n {
            cursor = end + 1;
        } else {
            proof {
                if size as int % 2 == 1 {
                    assert(end == n);
                    assert(scan_chunks(b, end as int + 1, gfmt2, gdat2) == (gfmt2, gdat2));
                    assert(scan_chunks(b, end as int, gfmt2, gdat2) == (gfmt2, gdat2));
                }
            }
            cursor = end;
        }
    }
    let (ds, size) = match dat {
        Some(d) => d,
        None => {
            return None;
        },
    };
    let (tag, _channels, bits) = match fmt {
        Some(f) => f,
        None => {
            return None;
        },
    };
    if tag != 1 || bits != 16 {
        return None;
    }
    let de = if ds > data.len() || size > data.len() - ds {
        data.len()
    } else {
        ds + size
    };
    proof {
        assert(ds + size <= b.len() ==> de == ds + size);
    }
    let mut out = data;
    scale_region(&mut out, vol_pct, ds, de);
    Some(out)
}

/// The cache file name a source stem and a volume percentage map to.
pub fn cache_file_name(stem: &str, vol_pct: u32) -> (r: String)
    ensures
        r@ == stem@ + "_vol"@ + dec_digits(vol_pct as nat) + ".wav"@,
{
    let mut out = stem.to_owned();
    out.append("_vol");
    push_dec_u64(&mut out, vol_pct as u64);
    out.append(".wav");
    out
}

/// The cache invalidation rule: a cached artifact may be reused exactly
/// when both modification times are known and the artifact is not older
/// than its source. Any edit that advances the source's time forces
/// recomputation.
pub fn cache_is_fresh(src_mtime: Option<u64>, cache_mtime: Option<u64>) -> (r: bool)
    ensures
        r == (src_mtime is Some && cache_mtime is Some && cache_mtime->0 >= src_mtime->0),
{
    match (src_mtime, cache_mtime) {
        (Some(s), Some(c)) => c >= s,
        _ => false,
    }
}

} // verus!
