//! The cache payload codec: a record is framed as text — fixed-width
//! hexadecimal numbers, tagged optional fields, length-prefixed strings —
//! and read back by a positional decoder that checks every field, so a
//! damaged payload decodes to nothing rather than to a malformed record.

use vstd::prelude::*;

use crate::datatype::{ElapsedTime, LogStamp, Metadata, RecordModel};

verus! {

/// Sixteen to the power `w`.
pub open spec fn pow16(w: nat) -> int
    decreases w,
{
    if w == 0 {
        1
    } else {
        16 * pow16((w - 1) as nat)
    }
}

/// The hexadecimal digit character for a value below sixteen.
pub open spec fn hex_char(d: int) -> char {
    if d == 0 {
        '0'
    } else if d == 1 {
        '1'
    } else if d == 2 {
        '2'
    } else if d == 3 {
        '3'
    } else if d == 4 {
        '4'
    } else if d == 5 {
        '5'
    } else if d == 6 {
        '6'
    } else if d == 7 {
        '7'
    } else if d == 8 {
        '8'
    } else if d == 9 {
        '9'
    } else if d == 10 {
        'a'
    } else if d == 11 {
        'b'
    } else if d == 12 {
        'c'
    } else if d == 13 {
        'd'
    } else if d == 14 {
        'e'
    } else {
        'f'
    }
}

/// The value of a hexadecimal digit character, absent for any other.
pub open spec fn hex_char_val(c: char) -> Option<int> {
    if c == '0' {
        Some(0)
    } else if c == '1' {
        Some(1)
    } else if c == '2' {
        Some(2)
    } else if c == '3' {
        Some(3)
    } else if c == '4' {
        Some(4)
    } else if c == '5' {
        Some(5)
    } else if c == '6' {
        Some(6)
    } else if c == '7' {
        Some(7)
    } else if c == '8' {
        Some(8)
    } else if c == '9' {
        Some(9)
    } else if c == 'a' {
        Some(10)
    } else if c == 'b' {
        Some(11)
    } else if c == 'c' {
        Some(12)
    } else if c == 'd' {
        Some(13)
    } else if c == 'e' {
        Some(14)
    } else if c == 'f' {
        Some(15)
    } else {
        None
    }
}

/// `v` written as exactly `w` hexadecimal digits, most significant first.
pub open spec fn hex_enc(v: int, w: nat) -> Seq<char>
    decreases w,
{
    if w == 0 {
        Seq::empty()
    } else {
        hex_enc(v / 16, (w - 1) as nat).push(hex_char(v % 16))
    }
}

/// The value of a full string of hexadecimal digits; absent when any
/// character is no such digit.
pub open spec fn hex_dec(s: Seq<char>) -> Option<int>
    decreases s.len(),
{
    if s.len() == 0 {
        Some(0)
    } else {
        match (hex_dec(s.drop_last()), hex_char_val(s.last())) {
            (Some(hi), Some(lo)) => Some(hi * 16 + lo),
            _ => None,
        }
    }
}

proof fn lemma_hex_enc_len(v: int, w: nat)
    ensures
        hex_enc(v, w).len() == w,
    decreases w,
{
    if w > 0 {
        lemma_hex_enc_len(v / 16, (w - 1) as nat);
    }
}

proof fn lemma_hex_round_trip(v: int, w: nat)
    requires
        0 <= v < pow16(w),
    ensures
        hex_dec(hex_enc(v, w)) == Some(v),
    decreases w,
{
    if w == 0 {
        assert(hex_enc(v, w) =~= Seq::<char>::empty());
    } else {
        let e = hex_enc(v, w);
        let q = v / 16;
        let r = v % 16;
        vstd::arithmetic::div_mod::lemma_fundamental_div_mod(v, 16);
        vstd::arithmetic::div_mod::lemma_mod_bound(v, 16);
        lemma_hex_enc_len(q, (w - 1) as nat);
        assert(e.drop_last() =~= hex_enc(q, (w - 1) as nat));
        assert(e.last() == hex_char(r));
        assert(hex_char_val(hex_char(r)) == Some(r));
        assert(q < pow16((w - 1) as nat));
        lemma_hex_round_trip(q, (w - 1) as nat);
    }
}

/// A string framed as its length, in sixteen hexadecimal digits, followed
/// by its characters.
pub open spec fn enc_str(t: Seq<char>) -> Seq<char> {
    hex_enc(t.len() as int, 16) + t
}

/// An optional string: a `0` tag, or a `1` tag and the framed string.
pub open spec fn enc_opt_str(o: Option<Seq<char>>) -> Seq<char> {
    match o {
        None => seq!['0'],
        Some(t) => seq!['1'] + enc_str(t),
    }
}

/// An optional small number: a `0` tag, or a `1` tag and four digits.
pub open spec fn enc_opt_u16(o: Option<u16>) -> Seq<char> {
    match o {
        None => seq!['0'],
        Some(v) => seq!['1'] + hex_enc(v as int, 4),
    }
}

/// An optional elapsed time: hours, minutes, seconds, two digits each.
pub open spec fn enc_opt_time(o: Option<ElapsedTime>) -> Seq<char> {
    match o {
        None => seq!['0'],
        Some(t) => seq!['1'] + hex_enc(t.hour as int, 2) + hex_enc(t.minute as int, 2) + hex_enc(
            t.second as int,
            2,
        ),
    }
}

/// An optional timestamp: year in four digits, then month, day, hour and
/// minute in two digits each.
pub open spec fn enc_opt_stamp(o: Option<LogStamp>) -> Seq<char> {
    match o {
        None => seq!['0'],
        Some(t) => seq!['1'] + hex_enc(t.year as int, 4) + hex_enc(t.month as int, 2) + hex_enc(
            t.day as int,
            2,
        ) + hex_enc(t.hour as int, 2) + hex_enc(t.minute as int, 2),
    }
}

/// The finished flag as one tag character.
pub open spec fn enc_bool(b: bool) -> Seq<char> {
    if b {
        seq!['1']
    } else {
        seq!['0']
    }
}

/// The full payload of a record; its position index is not framed, as the
/// reader of a cached record assigns the position anew.
pub open spec fn spec_encode(m: RecordModel) -> Seq<char> {
    hex_enc(m.id as int, 16) + enc_str(m.name) + enc_bool(m.b_finished) + enc_opt_u16(m.episode)
        + enc_opt_time(m.time_at_episode) + enc_opt_u16(m.season) + enc_opt_stamp(m.logged_time)
        + enc_opt_str(m.note) + enc_str(m.raw_line) + enc_str(m.reg_pattern_matched) + enc_opt_str(
        m.finished_reg_pattern_matched,
    )
}

/// Appends one hexadecimal digit character.
fn append_hex_digit(acc: &mut String, d: u8)
    requires
        d < 16,
    ensures
        final(acc)@ == old(acc)@ + seq![hex_char(d as int)],
{
    let table = "0123456789abcdef";
    proof {
        reveal_strlit("0123456789abcdef");
    }
    let piece = table.substring_char(d as usize, d as usize + 1);
    acc.append(piece);
    proof {
        assert(old(acc)@ + piece@ =~= old(acc)@ + seq![hex_char(d as int)]);
    }
}

/// Appends `v` as exactly `w` hexadecimal digits, most significant first.
fn append_hex(acc: &mut String, v: u64, w: usize)
    ensures
        final(acc)@ == old(acc)@ + hex_enc(v as int, w as nat),
    decreases w,
{
    if w == 0 {
        proof {
            assert(old(acc)@ + hex_enc(v as int, 0) =~= old(acc)@);
        }
        return ;
    }
    append_hex(acc, v / 16, w - 1);
    let d = (v % 16) as u8;
    append_hex_digit(acc, d);
    proof {
        assert(old(acc)@ + hex_enc((v / 16) as int, (w - 1) as nat) + seq![
            hex_char((v % 16) as int),
        ] =~= old(acc)@ + hex_enc(v as int, w as nat));
    }
}

/// Appends a length-framed string.
fn append_str(acc: &mut String, t: &str)
    ensures
        final(acc)@ == old(acc)@ + enc_str(t@),
{
    let n = t.unicode_len();
    append_hex(acc, n as u64, 16);
    acc.append(t);
    proof {
        assert(old(acc)@ + hex_enc(n as int, 16) + t@ =~= old(acc)@ + enc_str(t@));
    }
}

/// Appends a tag character: `1` for true, `0` for false.
fn append_tag(acc: &mut String, b: bool)
    ensures
        final(acc)@ == old(acc)@ + enc_bool(b),
{
    if b {
        acc.append("1");
        proof {
            reveal_strlit("1");
            assert(old(acc)@ + "1"@ =~= old(acc)@ + enc_bool(true));
        }
    } else {
        acc.append("0");
        proof {
            reveal_strlit("0");
            assert(old(acc)@ + "0"@ =~= old(acc)@ + enc_bool(false));
        }
    }
}

/// Appends an optional small number.
fn append_opt_u16(acc: &mut String, o: Option<u16>)
    ensures
        final(acc)@ == old(acc)@ + enc_opt_u16(o),
{
    match o {
        Some(v) => {
            append_tag(acc, true);
            append_hex(acc, v as u64, 4);
            proof {
                assert(old(acc)@ + enc_bool(true) + hex_enc(v as int, 4) =~= old(acc)@
                    + enc_opt_u16(o));
            }
        },
        None => {
            append_tag(acc, false);
            proof {
                assert(old(acc)@ + enc_bool(false) =~= old(acc)@ + enc_opt_u16(o));
            }
        },
    }
}

/// Appends an optional elapsed time.
fn append_opt_time(acc: &mut String, o: Option<ElapsedTime>)
    ensures
        final(acc)@ == old(acc)@ + enc_opt_time(o),
{
    match o {
        Some(t) => {
            append_tag(acc, true);
            append_hex(acc, t.hour as u64, 2);
            append_hex(acc, t.minute as u64, 2);
            append_hex(acc, t.second as u64, 2);
            proof {
                assert(old(acc)@ + enc_bool(true) + hex_enc(t.hour as int, 2) + hex_enc(
                    t.minute as int,
                    2,
                ) + hex_enc(t.second as int, 2) =~= old(acc)@ + enc_opt_time(o));
            }
        },
        None => {
            append_tag(acc, false);
            proof {
                assert(old(acc)@ + enc_bool(false) =~= old(acc)@ + enc_opt_time(o));
            }
        },
    }
}

/// Appends an optional timestamp.
fn append_opt_stamp(acc: &mut String, o: Option<LogStamp>)
    ensures
        final(acc)@ == old(acc)@ + enc_opt_stamp(o),
{
    match o {
        Some(t) => {
            append_tag(acc, true);
            append_hex(acc, t.year as u64, 4);
            append_hex(acc, t.month as u64, 2);
            append_hex(acc, t.day as u64, 2);
            append_hex(acc, t.hour as u64, 2);
            append_hex(acc, t.minute as u64, 2);
            proof {
                assert(old(acc)@ + enc_bool(true) + hex_enc(t.year as int, 4) + hex_enc(
                    t.month as int,
                    2,
                ) + hex_enc(t.day as int, 2) + hex_enc(t.hour as int, 2) + hex_enc(
                    t.minute as int,
                    2,
                ) =~= old(acc)@ + enc_opt_stamp(o));
            }
        },
        None => {
            append_tag(acc, false);
            proof {
                assert(old(acc)@ + enc_bool(false) =~= old(acc)@ + enc_opt_stamp(o));
            }
        },
    }
}

/// Appends an optional length-framed string.
fn append_opt_str(acc: &mut String, o: &Option<String>)
    ensures
        final(acc)@ == old(acc)@ + enc_opt_str(crate::datatype::opt_view(*o)),
{
    match o {
        Some(t) => {
            append_tag(acc, true);
            append_str(acc, t.as_str());
            proof {
                assert(old(acc)@ + enc_bool(true) + enc_str(t@) =~= old(acc)@ + enc_opt_str(
                    crate::datatype::opt_view(*o),
                ));
            }
        },
        None => {
            append_tag(acc, false);
            proof {
                assert(old(acc)@ + enc_bool(false) =~= old(acc)@ + enc_opt_str(
                    crate::datatype::opt_view(*o),
                ));
            }
        },
    }
}

/// Frames a record as its cache payload.
#[verifier::rlimit(100)]
pub fn encode(m: &Metadata) -> (r: String)
    ensures
        r@ == spec_encode(m.model()),
{
    let mut acc = String::new();
    proof {
        assert(acc@ =~= Seq::<char>::empty());
    }
    append_hex(&mut acc, m.id, 16);
    proof {
        assert(acc@ =~= hex_enc(m.id as int, 16));
    }
    append_str(&mut acc, m.name.as_str());
    append_tag(&mut acc, m.b_finished);
    append_opt_u16(&mut acc, m.episode);
    append_opt_time(&mut acc, m.time_at_episode);
    append_opt_u16(&mut acc, m.season);
    append_opt_stamp(&mut acc, m.logged_time);
    append_opt_str(&mut acc, &m.note);
    append_str(&mut acc, m.raw_line.as_str());
    append_str(&mut acc, m.reg_pattern_matched.as_str());
    append_opt_str(&mut acc, &m.finished_reg_pattern_matched);
    acc
}

/// Reads `w` hexadecimal digits at `pos`: the value and the next position.
pub open spec fn rd_hex(s: Seq<char>, pos: int, w: nat) -> Option<(int, int)> {
    if 0 <= pos && pos + w <= s.len() {
        match hex_dec(s.subrange(pos, pos + w)) {
            Some(v) => Some((v, pos + w)),
            None => None,
        }
    } else {
        None
    }
}

/// Reads one tag character at `pos`.
pub open spec fn rd_tag(s: Seq<char>, pos: int) -> Option<(bool, int)> {
    if 0 <= pos && pos < s.len() {
        if s[pos] == '1' {
            Some((true, pos + 1))
        } else if s[pos] == '0' {
            Some((false, pos + 1))
        } else {
            None
        }
    } else {
        None
    }
}

/// Reads a length-framed string at `pos`.
pub open spec fn rd_str(s: Seq<char>, pos: int) -> Option<(Seq<char>, int)> {
    match rd_hex(s, pos, 16) {
        Some((l, p)) => {
            if p + l <= s.len() {
                Some((s.subrange(p, p + l), p + l))
            } else {
                None
            }
        },
        None => None,
    }
}

/// Reads an optional length-framed string at `pos`.
pub open spec fn rd_opt_str(s: Seq<char>, pos: int) -> Option<(Option<Seq<char>>, int)> {
    match rd_tag(s, pos) {
        Some((false, p)) => Some((None, p)),
        Some((true, p)) => match rd_str(s, p) {
            Some((t, p2)) => Some((Some(t), p2)),
            None => None,
        },
        None => None,
    }
}

/// Reads an optional four-digit number at `pos`.
pub open spec fn rd_opt_u16(s: Seq<char>, pos: int) -> Option<(Option<u16>, int)> {
    match rd_tag(s, pos) {
        Some((false, p)) => Some((None, p)),
        Some((true, p)) => match rd_hex(s, p, 4) {
            Some((v, p2)) => {
                if 0 <= v < 65536 {
                    Some((Some(v as u16), p2))
                } else {
                    None
                }
            },
            None => None,
        },
        None => None,
    }
}

/// Reads an optional elapsed time at `pos`, rejecting out-of-range fields.
pub open spec fn rd_opt_time(s: Seq<char>, pos: int) -> Option<(Option<ElapsedTime>, int)> {
    match rd_tag(s, pos) {
        Some((false, p)) => Some((None, p)),
        Some((true, p)) => match (rd_hex(s, p, 2), rd_hex(s, p + 2, 2), rd_hex(s, p + 4, 2)) {
            (Some((h, _)), Some((mi, _)), Some((sec, p2))) => {
                if 0 <= h < 24 && 0 <= mi < 60 && 0 <= sec < 60 {
                    Some(
                        (
                            Some(
                                ElapsedTime {
                                    hour: h as u8,
                                    minute: mi as u8,
                                    second: sec as u8,
                                },
                            ),
                            p2,
                        ),
                    )
                } else {
                    None
                }
            },
            _ => None,
        },
        None => None,
    }
}

/// Reads an optional timestamp at `pos`, rejecting out-of-range fields.
pub open spec fn rd_opt_stamp(s: Seq<char>, pos: int) -> Option<(Option<LogStamp>, int)> {
    match rd_tag(s, pos) {
        Some((false, p)) => Some((None, p)),
        Some((true, p)) => match (
            rd_hex(s, p, 4),
            rd_hex(s, p + 4, 2),
            rd_hex(s, p + 6, 2),
            rd_hex(s, p + 8, 2),
            rd_hex(s, p + 10, 2),
        ) {
            (Some((y, _)), Some((mo, _)), Some((d, _)), Some((h, _)), Some((mi, p2))) => {
                if 0 <= y <= 9999 && 1 <= mo <= 12 && 1 <= d <= 31 && 0 <= h < 24 && 0 <= mi
                    < 60 {
                    Some(
                        (
                            Some(
                                LogStamp {
                                    year: y as u16,
                                    month: mo as u8,
                                    day: d as u8,
                                    hour: h as u8,
                                    minute: mi as u8,
                                },
                            ),
                            p2,
                        ),
                    )
                } else {
                    None
                }
            },
            _ => None,
        },
        None => None,
    }
}

proof fn lemma_pow16_pos(a: nat)
    ensures
        pow16(a) >= 1,
    decreases a,
{
    if a > 0 {
        lemma_pow16_pos((a - 1) as nat);
    }
}

proof fn lemma_pow16_mono(a: nat, b: nat)
    requires
        a <= b,
    ensures
        pow16(a) <= pow16(b),
        pow16(a) >= 1,
    decreases b,
{
    lemma_pow16_pos(a);
    if a < b {
        lemma_pow16_mono(a, (b - 1) as nat);
    }
}

proof fn lemma_pow16_16()
    ensures
        pow16(16) == 0x10000000000000000,
{
    reveal_with_fuel(pow16, 17);
}

proof fn lemma_hex_dec_none(t: Seq<char>, i: int)
    requires
        0 <= i < t.len(),
        hex_char_val(t[i]) is None,
    ensures
        hex_dec(t) is None,
    decreases t.len(),
{
    if i < t.len() - 1 {
        assert(t.drop_last()[i] == t[i]);
        lemma_hex_dec_none(t.drop_last(), i);
    }
}

/// The value of one hexadecimal digit character.
fn hex_val_exec(c: char) -> (r: Option<u8>)
    ensures
        match r {
            Some(d) => hex_char_val(c) == Some(d as int) && d < 16,
            None => hex_char_val(c) is None,
        },
{
    if c == '0' {
        Some(0)
    } else if c == '1' {
        Some(1)
    } else if c == '2' {
        Some(2)
    } else if c == '3' {
        Some(3)
    } else if c == '4' {
        Some(4)
    } else if c == '5' {
        Some(5)
    } else if c == '6' {
        Some(6)
    } else if c == '7' {
        Some(7)
    } else if c == '8' {
        Some(8)
    } else if c == '9' {
        Some(9)
    } else if c == 'a' {
        Some(10)
    } else if c == 'b' {
        Some(11)
    } else if c == 'c' {
        Some(12)
    } else if c == 'd' {
        Some(13)
    } else if c == 'e' {
        Some(14)
    } else if c == 'f' {
        Some(15)
    } else {
        None
    }
}

/// Reads `w` hexadecimal digits at `pos`.
fn read_hex(s: &str, pos: usize, w: usize) -> (r: Option<(u64, usize)>)
    requires
        w <= 16,
    ensures
        match r {
            Some((v, p)) => rd_hex(s@, pos as int, w as nat) == Some((v as int, p as int)),
            None => rd_hex(s@, pos as int, w as nat) is None,
        },
{
    let n = s.unicode_len();
    if pos > n || w > n - pos {
        return None;
    }
    let mut acc: u64 = 0;
    let mut k: usize = 0;
    while k < w
        invariant
            0 <= k <= w <= 16,
            pos + w <= n,
            n == s@.len(),
            hex_dec(s@.subrange(pos as int, pos + k)) == Some(acc as int),
            acc < pow16(k as nat),
        decreases w - k,
    {
        let c = s.get_char(pos + k);
        let ghost pre = s@.subrange(pos as int, pos + k);
        let ghost cur = s@.subrange(pos as int, pos + k + 1);
        proof {
            assert(cur.drop_last() =~= pre);
            assert(cur.last() == s@[pos + k]);
        }
        match hex_val_exec(c) {
            Some(d) => {
                proof {
                    lemma_pow16_mono((k + 1) as nat, 16);
                    lemma_pow16_16();
                    assert(pow16((k + 1) as nat) == 16 * pow16(k as nat));
                }
                acc = acc * 16 + (d as u64);
                proof {
                    assert(hex_dec(cur) == Some(acc as int));
                }
            },
            None => {
                proof {
                    let whole = s@.subrange(pos as int, pos + w);
                    assert(whole[k as int] == s@[pos + k]);
                    lemma_hex_dec_none(whole, k as int);
                }
                return None;
            },
        }
        k += 1;
    }
    proof {
        assert(s@.subrange(pos as int, pos + k) =~= s@.subrange(pos as int, pos + w));
    }
    Some((acc, pos + w))
}

/// Reads one tag character at `pos`.
fn read_tag(s: &str, pos: usize) -> (r: Option<(bool, usize)>)
    ensures
        match r {
            Some((b, p)) => rd_tag(s@, pos as int) == Some((b, p as int)),
            None => rd_tag(s@, pos as int) is None,
        },
{
    let n = s.unicode_len();
    if pos >= n {
        return None;
    }
    let c = s.get_char(pos);
    if c == '1' {
        Some((true, pos + 1))
    } else if c == '0' {
        Some((false, pos + 1))
    } else {
        None
    }
}

/// Reads a length-framed string at `pos`.
fn read_str(s: &str, pos: usize) -> (r: Option<(String, usize)>)
    ensures
        match r {
            Some((t, p)) => rd_str(s@, pos as int) == Some((t@, p as int)),
            None => rd_str(s@, pos as int) is None,
        },
{
    match read_hex(s, pos, 16) {
        None => None,
        Some((l, p)) => {
            let n = s.unicode_len();
            if l > (n - p) as u64 {
                return None;
            }
            let l_us = l as usize;
            let t = s.substring_char(p, p + l_us).to_owned();
            Some((t, p + l_us))
        },
    }
}

/// Reads an optional length-framed string at `pos`.
fn read_opt_str(s: &str, pos: usize) -> (r: Option<(Option<String>, usize)>)
    ensures
        match r {
            Some((t, p)) => rd_opt_str(s@, pos as int) == Some(
                (crate::datatype::opt_view(t), p as int),
            ),
            None => rd_opt_str(s@, pos as int) is None,
        },
{
    match read_tag(s, pos) {
        None => None,
        Some((false, p)) => Some((None, p)),
        Some((true, p)) => match read_str(s, p) {
            None => None,
            Some((t, p2)) => Some((Some(t), p2)),
        },
    }
}

/// Reads an optional four-digit number at `pos`.
fn read_opt_u16(s: &str, pos: usize) -> (r: Option<(Option<u16>, usize)>)
    ensures
        match r {
            Some((v, p)) => rd_opt_u16(s@, pos as int) == Some((v, p as int)),
            None => rd_opt_u16(s@, pos as int) is None,
        },
{
    match read_tag(s, pos) {
        None => None,
        Some((false, p)) => Some((None, p)),
        Some((true, p)) => match read_hex(s, p, 4) {
            None => None,
            Some((v, p2)) => {
                if v < 65536 {
                    Some((Some(v as u16), p2))
                } else {
                    None
                }
            },
        },
    }
}

/// Reads an optional elapsed time at `pos`.
fn read_opt_time(s: &str, pos: usize) -> (r: Option<(Option<ElapsedTime>, usize)>)
    ensures
        match r {
            Some((v, p)) => rd_opt_time(s@, pos as int) == Some((v, p as int)) && (v matches Some(
                t,
            ) ==> t.wf()),
            None => rd_opt_time(s@, pos as int) is None,
        },
{
    match read_tag(s, pos) {
        None => None,
        Some((false, p)) => Some((None, p)),
        Some((true, p)) => match read_hex(s, p, 2) {
            None => None,
            Some((h, ph)) => match read_hex(s, ph, 2) {
                None => None,
                Some((mi, pm)) => match read_hex(s, pm, 2) {
                    None => None,
                    Some((sec, p2)) => {
                        if h < 24 && mi < 60 && sec < 60 {
                            Some(
                                (
                                    Some(
                                        ElapsedTime {
                                            hour: h as u8,
                                            minute: mi as u8,
                                            second: sec as u8,
                                        },
                                    ),
                                    p2,
                                ),
                            )
                        } else {
                            None
                        }
                    },
                },
            },
        },
    }
}

/// Reads an optional timestamp at `pos`.
fn read_opt_stamp(s: &str, pos: usize) -> (r: Option<(Option<LogStamp>, usize)>)
    ensures
        match r {
            Some((v, p)) => rd_opt_stamp(s@, pos as int) == Some((v, p as int)) && (v matches Some(
                t,
            ) ==> t.wf()),
            None => rd_opt_stamp(s@, pos as int) is None,
        },
{
    match read_tag(s, pos) {
        None => None,
        Some((false, p)) => Some((None, p)),
        Some((true, p)) => match read_hex(s, p, 4) {
            None => None,
            Some((y, py)) => match read_hex(s, py, 2) {
                None => None,
                Some((mo, pmo)) => match read_hex(s, pmo, 2) {
                    None => None,
                    Some((d, pd)) => match read_hex(s, pd, 2) {
                        None => None,
                        Some((h, ph)) => match read_hex(s, ph, 2) {
                            None => None,
                            Some((mi, p2)) => {
                                if y <= 9999 && 1 <= mo && mo <= 12 && 1 <= d && d <= 31 && h < 24
                                    && mi < 60 {
                                    Some(
                                        (
                                            Some(
                                                LogStamp {
                                                    year: y as u16,
                                                    month: mo as u8,
                                                    day: d as u8,
                                                    hour: h as u8,
                                                    minute: mi as u8,
                                                },
                                            ),
                                            p2,
                                        ),
                                    )
                                } else {
                                    None
                                }
                            },
                        },
                    },
                },
            },
        },
    }
}

/// Reads a payload back into a record, its position set to `index`;
/// yields nothing when the payload does not read back cleanly.
#[verifier::rlimit(100)]
pub fn decode(s: &str, index: u32) -> (r: Option<Metadata>)
    ensures
        crate::pattern::models(r, spec_decode(s@, index)),
        r matches Some(m) ==> m.wf() && m.index == index,
{
    let id = match read_hex(s, 0, 16) {
        None => {
            return None;
        },
        Some(x) => x,
    };
    let name = match read_str(s, id.1) {
        None => {
            return None;
        },
        Some(x) => x,
    };
    let b_finished = match read_tag(s, name.1) {
        None => {
            return None;
        },
        Some(x) => x,
    };
    let episode = match read_opt_u16(s, b_finished.1) {
        None => {
            return None;
        },
        Some(x) => x,
    };
    let time_at_episode = match read_opt_time(s, episode.1) {
        None => {
            return None;
        },
        Some(x) => x,
    };
    let season = match read_opt_u16(s, time_at_episode.1) {
        None => {
            return None;
        },
        Some(x) => x,
    };
    let logged_time = match read_opt_stamp(s, season.1) {
        None => {
            return None;
        },
        Some(x) => x,
    };
    let note = match read_opt_str(s, logged_time.1) {
        None => {
            return None;
        },
        Some(x) => x,
    };
    let raw_line = match read_str(s, note.1) {
        None => {
            return None;
        },
        Some(x) => x,
    };
    let reg_pattern_matched = match read_str(s, raw_line.1) {
        None => {
            return None;
        },
        Some(x) => x,
    };
    let finished_reg_pattern_matched = match read_opt_str(s, reg_pattern_matched.1) {
        None => {
            return None;
        },
        Some(x) => x,
    };
    let n = s.unicode_len();
    if finished_reg_pattern_matched.1 != n {
        return None;
    }
    Some(
        Metadata {
            index,
            id: id.0,
            name: name.0,
            b_finished: b_finished.0,
            episode: episode.0,
            time_at_episode: time_at_episode.0,
            season: season.0,
            logged_time: logged_time.0,
            note: note.0,
            raw_line: raw_line.0,
            reg_pattern_matched: reg_pattern_matched.0,
            finished_reg_pattern_matched: finished_reg_pattern_matched.0,
        },
    )
}

/// The record a payload reads back as, its position set to `index`;
/// absent when the payload is damaged, truncated, carries trailing text,
/// or frames an out-of-range field.
pub open spec fn spec_decode(s: Seq<char>, index: u32) -> Option<RecordModel> {
    match rd_hex(s, 0, 16) {
        None => None,
        Some((id, p1)) => match rd_str(s, p1) {
            None => None,
            Some((name, p2)) => match rd_tag(s, p2) {
                None => None,
                Some((b_finished, p3)) => match rd_opt_u16(s, p3) {
                    None => None,
                    Some((episode, p4)) => match rd_opt_time(s, p4) {
                        None => None,
                        Some((time_at_episode, p5)) => match rd_opt_u16(s, p5) {
                            None => None,
                            Some((season, p6)) => match rd_opt_stamp(s, p6) {
                                None => None,
                                Some((logged_time, p7)) => match rd_opt_str(s, p7) {
                                    None => None,
                                    Some((note, p8)) => match rd_str(s, p8) {
                                        None => None,
                                        Some((raw_line, p9)) => match rd_str(s, p9) {
                                            None => None,
                                            Some((reg_pattern_matched, p10)) => match rd_opt_str(
                                                s,
                                                p10,
                                            ) {
                                                None => None,
                                                Some((finished_reg_pattern_matched, p11)) => {
                                                    if p11 == s.len() && 0 <= id < 0x10000000000000000
                                                     {
                                                        Some(
                                                            RecordModel {
                                                                index,
                                                                id: id as u64,
                                                                name,
                                                                b_finished,
                                                                episode,
                                                                time_at_episode,
                                                                season,
                                                                logged_time,
                                                                note,
                                                                raw_line,
                                                                reg_pattern_matched,
                                                                finished_reg_pattern_matched,
                                                            },
                                                        )
                                                    } else {
                                                        None
                                                    }
                                                },
                                            },
                                        },
                                    },
                                },
                            },
                        },
                    },
                },
            },
        },
    }
}


/// The fields of a record fit the payload frame: structured times are in
/// range and text lengths fit the sixteen-digit length frame.
pub open spec fn encodable(m: RecordModel) -> bool {
    &&& match m.time_at_episode {
        Some(t) => t.wf(),
        None => true,
    }
    &&& match m.logged_time {
        Some(t) => t.wf(),
        None => true,
    }
    &&& m.name.len() < pow16(16)
    &&& m.raw_line.len() < pow16(16)
    &&& m.reg_pattern_matched.len() < pow16(16)
    &&& match m.note {
        Some(t) => t.len() < pow16(16),
        None => true,
    }
    &&& match m.finished_reg_pattern_matched {
        Some(t) => t.len() < pow16(16),
        None => true,
    }
}

proof fn lemma_rd_hex_at(s: Seq<char>, pos: int, v: int, w: nat)
    requires
        0 <= pos,
        pos + w <= s.len(),
        s.subrange(pos, pos + w) == hex_enc(v, w),
        0 <= v < pow16(w),
    ensures
        rd_hex(s, pos, w) == Some((v, pos + w)),
{
    lemma_hex_round_trip(v, w);
}

proof fn lemma_rd_tag_at(s: Seq<char>, pos: int, b: bool)
    requires
        0 <= pos,
        pos + 1 <= s.len(),
        s.subrange(pos, pos + 1) == enc_bool(b),
    ensures
        rd_tag(s, pos) == Some((b, pos + 1)),
{
    assert(s[pos] == s.subrange(pos, pos + 1)[0]);
}

proof fn lemma_enc_str_len(t: Seq<char>)
    ensures
        enc_str(t).len() == 16 + t.len(),
{
    lemma_hex_enc_len(t.len() as int, 16);
}

proof fn lemma_rd_str_at(s: Seq<char>, pos: int, t: Seq<char>)
    requires
        0 <= pos,
        t.len() < pow16(16),
        pos + 16 + t.len() <= s.len(),
        s.subrange(pos, pos + 16 + t.len()) == enc_str(t),
    ensures
        rd_str(s, pos) == Some((t, pos + 16 + t.len())),
{
    lemma_hex_enc_len(t.len() as int, 16);
    assert(s.subrange(pos, pos + 16) =~= hex_enc(t.len() as int, 16)) by {
        assert forall|k: int| 0 <= k < 16 implies s.subrange(pos, pos + 16)[k] == hex_enc(
            t.len() as int,
            16,
        )[k] by {
            assert(s.subrange(pos, pos + 16)[k] == s.subrange(pos, pos + 16 + t.len())[k]);
        }
    }
    lemma_rd_hex_at(s, pos, t.len() as int, 16);
    assert(s.subrange(pos + 16, pos + 16 + t.len()) =~= t) by {
        assert forall|k: int| 0 <= k < t.len() implies s.subrange(pos + 16, pos + 16 + t.len())[k]
            == t[k] by {
            assert(s.subrange(pos + 16, pos + 16 + t.len())[k] == s.subrange(
                pos,
                pos + 16 + t.len(),
            )[16 + k]);
        }
    }
}

proof fn lemma_rd_opt_str_at(s: Seq<char>, pos: int, o: Option<Seq<char>>)
    requires
        0 <= pos,
        match o {
            Some(t) => t.len() < pow16(16),
            None => true,
        },
        pos + enc_opt_str(o).len() <= s.len(),
        s.subrange(pos, pos + enc_opt_str(o).len()) == enc_opt_str(o),
    ensures
        match o {
            Some(t) => rd_opt_str(s, pos) == Some((o, pos + 17 + t.len())),
            None => rd_opt_str(s, pos) == Some((o, pos + 1)),
        },
        enc_opt_str(o).len() == match o {
            Some(t) => 17 + t.len() as int,
            None => 1int,
        },
{
    match o {
        None => {
            assert(enc_opt_str(o) =~= enc_bool(false));
            lemma_rd_tag_at(s, pos, false);
        },
        Some(t) => {
            lemma_enc_str_len(t);
            let e = enc_opt_str(o);
            assert(e.len() == 17 + t.len());
            assert(s.subrange(pos, pos + 1) =~= enc_bool(true)) by {
                assert(s.subrange(pos, pos + 1)[0] == s.subrange(pos, pos + e.len())[0]);
                assert(e[0] == '1');
            }
            lemma_rd_tag_at(s, pos, true);
            assert(s.subrange(pos + 1, pos + 1 + 16 + t.len()) =~= enc_str(t)) by {
                assert forall|k: int| 0 <= k < 16 + t.len() implies s.subrange(
                    pos + 1,
                    pos + 1 + 16 + t.len(),
                )[k] == enc_str(t)[k] by {
                    assert(s.subrange(pos + 1, pos + 1 + 16 + t.len())[k] == s.subrange(
                        pos,
                        pos + e.len(),
                    )[1 + k]);
                    assert(e[1 + k] == enc_str(t)[k]);
                }
            }
            lemma_rd_str_at(s, pos + 1, t);
        },
    }
}

proof fn lemma_rd_opt_u16_at(s: Seq<char>, pos: int, o: Option<u16>)
    requires
        0 <= pos,
        pos + enc_opt_u16(o).len() <= s.len(),
        s.subrange(pos, pos + enc_opt_u16(o).len()) == enc_opt_u16(o),
    ensures
        match o {
            Some(_) => rd_opt_u16(s, pos) == Some((o, pos + 5)),
            None => rd_opt_u16(s, pos) == Some((o, pos + 1)),
        },
        enc_opt_u16(o).len() == match o {
            Some(_) => 5int,
            None => 1int,
        },
{
    match o {
        None => {
            assert(enc_opt_u16(o) =~= enc_bool(false));
            lemma_rd_tag_at(s, pos, false);
        },
        Some(v) => {
            lemma_hex_enc_len(v as int, 4);
            let e = enc_opt_u16(o);
            assert(e.len() == 5);
            assert(s.subrange(pos, pos + 1) =~= enc_bool(true)) by {
                assert(s.subrange(pos, pos + 1)[0] == s.subrange(pos, pos + 5)[0]);
                assert(e[0] == '1');
            }
            lemma_rd_tag_at(s, pos, true);
            assert(s.subrange(pos + 1, pos + 5) =~= hex_enc(v as int, 4)) by {
                assert forall|k: int| 0 <= k < 4 implies s.subrange(pos + 1, pos + 5)[k] == hex_enc(
                    v as int,
                    4,
                )[k] by {
                    assert(s.subrange(pos + 1, pos + 5)[k] == s.subrange(pos, pos + 5)[1 + k]);
                    assert(e[1 + k] == hex_enc(v as int, 4)[k]);
                }
            }
            assert(pow16(4) == 65536) by {
                reveal_with_fuel(pow16, 5);
            }
            lemma_rd_hex_at(s, pos + 1, v as int, 4);
        },
    }
}

proof fn lemma_hex_piece(s: Seq<char>, pos: int, e: Seq<char>, off: int, v: int, w: nat)
    requires
        0 <= pos,
        pos + e.len() <= s.len(),
        s.subrange(pos, pos + e.len()) == e,
        0 <= off,
        off + w <= e.len(),
        e.subrange(off, off + w) == hex_enc(v, w),
        0 <= v < pow16(w),
    ensures
        rd_hex(s, pos + off, w) == Some((v, pos + off + w)),
{
    assert(s.subrange(pos + off, pos + off + w) =~= hex_enc(v, w)) by {
        assert forall|k: int| 0 <= k < w implies s.subrange(pos + off, pos + off + w)[k] == hex_enc(
            v,
            w,
        )[k] by {
            assert(s.subrange(pos + off, pos + off + w)[k] == s.subrange(pos, pos + e.len())[off
                + k]);
            assert(e[off + k] == e.subrange(off, off + w)[k]);
        }
    }
    lemma_rd_hex_at(s, pos + off, v, w);
}

proof fn lemma_rd_opt_time_at(s: Seq<char>, pos: int, o: Option<ElapsedTime>)
    requires
        0 <= pos,
        match o {
            Some(t) => t.wf(),
            None => true,
        },
        pos + enc_opt_time(o).len() <= s.len(),
        s.subrange(pos, pos + enc_opt_time(o).len()) == enc_opt_time(o),
    ensures
        match o {
            Some(_) => rd_opt_time(s, pos) == Some((o, pos + 7)),
            None => rd_opt_time(s, pos) == Some((o, pos + 1)),
        },
        enc_opt_time(o).len() == match o {
            Some(_) => 7int,
            None => 1int,
        },
{
    match o {
        None => {
            assert(enc_opt_time(o) =~= enc_bool(false));
            lemma_rd_tag_at(s, pos, false);
        },
        Some(t) => {
            lemma_hex_enc_len(t.hour as int, 2);
            lemma_hex_enc_len(t.minute as int, 2);
            lemma_hex_enc_len(t.second as int, 2);
            let e = enc_opt_time(o);
            assert(e.len() == 7);
            assert(s.subrange(pos, pos + 1) =~= enc_bool(true)) by {
                assert(s.subrange(pos, pos + 1)[0] == s.subrange(pos, pos + 7)[0]);
                assert(e[0] == '1');
            }
            lemma_rd_tag_at(s, pos, true);
            assert(pow16(2) == 256) by {
                reveal_with_fuel(pow16, 3);
            }
            assert(e.subrange(1, 3) =~= hex_enc(t.hour as int, 2));
            assert(e.subrange(3, 5) =~= hex_enc(t.minute as int, 2));
            assert(e.subrange(5, 7) =~= hex_enc(t.second as int, 2));
            lemma_hex_piece(s, pos, e, 1, t.hour as int, 2);
            lemma_hex_piece(s, pos, e, 3, t.minute as int, 2);
            lemma_hex_piece(s, pos, e, 5, t.second as int, 2);
        },
    }
}

proof fn lemma_rd_opt_stamp_at(s: Seq<char>, pos: int, o: Option<LogStamp>)
    requires
        0 <= pos,
        match o {
            Some(t) => t.wf(),
            None => true,
        },
        pos + enc_opt_stamp(o).len() <= s.len(),
        s.subrange(pos, pos + enc_opt_stamp(o).len()) == enc_opt_stamp(o),
    ensures
        match o {
            Some(_) => rd_opt_stamp(s, pos) == Some((o, pos + 13)),
            None => rd_opt_stamp(s, pos) == Some((o, pos + 1)),
        },
        enc_opt_stamp(o).len() == match o {
            Some(_) => 13int,
            None => 1int,
        },
{
    match o {
        None => {
            assert(enc_opt_stamp(o) =~= enc_bool(false));
            lemma_rd_tag_at(s, pos, false);
        },
        Some(t) => {
            lemma_hex_enc_len(t.year as int, 4);
            lemma_hex_enc_len(t.month as int, 2);
            lemma_hex_enc_len(t.day as int, 2);
            lemma_hex_enc_len(t.hour as int, 2);
            lemma_hex_enc_len(t.minute as int, 2);
            let e = enc_opt_stamp(o);
            assert(e.len() == 13);
            assert(s.subrange(pos, pos + 1) =~= enc_bool(true)) by {
                assert(s.subrange(pos, pos + 1)[0] == s.subrange(pos, pos + 13)[0]);
                assert(e[0] == '1');
            }
            lemma_rd_tag_at(s, pos, true);
            assert(pow16(2) == 256) by {
                reveal_with_fuel(pow16, 3);
            }
            assert(pow16(4) == 65536) by {
                reveal_with_fuel(pow16, 5);
            }
            assert(e.subrange(1, 5) =~= hex_enc(t.year as int, 4));
            assert(e.subrange(5, 7) =~= hex_enc(t.month as int, 2));
            assert(e.subrange(7, 9) =~= hex_enc(t.day as int, 2));
            assert(e.subrange(9, 11) =~= hex_enc(t.hour as int, 2));
            assert(e.subrange(11, 13) =~= hex_enc(t.minute as int, 2));
            lemma_hex_piece(s, pos, e, 1, t.year as int, 4);
            lemma_hex_piece(s, pos, e, 5, t.month as int, 2);
            lemma_hex_piece(s, pos, e, 7, t.day as int, 2);
            lemma_hex_piece(s, pos, e, 9, t.hour as int, 2);
            lemma_hex_piece(s, pos, e, 11, t.minute as int, 2);
        },
    }
}

/// Law: a framed record reads back as itself, with its position set
/// anew; re-parsing a cached payload therefore rebuilds the record it
/// was written from.
#[verifier::rlimit(100)]
pub proof fn lemma_codec_round_trip(m: RecordModel, index: u32)
    requires
        encodable(m),
    ensures
        spec_decode(spec_encode(m), index) == Some(RecordModel { index, ..m }),
{
    let s = spec_encode(m);
    let p1 = hex_enc(m.id as int, 16);
    let p2 = enc_str(m.name);
    let p3 = enc_bool(m.b_finished);
    let p4 = enc_opt_u16(m.episode);
    let p5 = enc_opt_time(m.time_at_episode);
    let p6 = enc_opt_u16(m.season);
    let p7 = enc_opt_stamp(m.logged_time);
    let p8 = enc_opt_str(m.note);
    let p9 = enc_str(m.raw_line);
    let p10 = enc_str(m.reg_pattern_matched);
    let p11 = enc_opt_str(m.finished_reg_pattern_matched);
    lemma_hex_enc_len(m.id as int, 16);
    lemma_enc_str_len(m.name);
    lemma_enc_str_len(m.raw_line);
    lemma_enc_str_len(m.reg_pattern_matched);
    let o1 = p1.len() as int;
    let o2 = o1 + p2.len();
    let o3 = o2 + p3.len();
    let o4 = o3 + p4.len();
    let o5 = o4 + p5.len();
    let o6 = o5 + p6.len();
    let o7 = o6 + p7.len();
    let o8 = o7 + p8.len();
    let o9 = o8 + p9.len();
    let o10 = o9 + p10.len();
    let o11 = o10 + p11.len();
    assert(s.len() == o11);
    assert(s.subrange(0, o1) =~= p1);
    assert(s.subrange(o1, o2) =~= p2);
    assert(s.subrange(o2, o3) =~= p3);
    assert(s.subrange(o3, o4) =~= p4);
    assert(s.subrange(o4, o5) =~= p5);
    assert(s.subrange(o5, o6) =~= p6);
    assert(s.subrange(o6, o7) =~= p7);
    assert(s.subrange(o7, o8) =~= p8);
    assert(s.subrange(o8, o9) =~= p9);
    assert(s.subrange(o9, o10) =~= p10);
    assert(s.subrange(o10, o11) =~= p11);
    lemma_pow16_16();
    lemma_rd_hex_at(s, 0, m.id as int, 16);
    lemma_rd_str_at(s, o1, m.name);
    lemma_rd_tag_at(s, o2, m.b_finished);
    lemma_rd_opt_u16_at(s, o3, m.episode);
    lemma_rd_opt_time_at(s, o4, m.time_at_episode);
    lemma_rd_opt_u16_at(s, o5, m.season);
    lemma_rd_opt_stamp_at(s, o6, m.logged_time);
    lemma_rd_opt_str_at(s, o7, m.note);
    lemma_rd_str_at(s, o8, m.raw_line);
    lemma_rd_str_at(s, o9, m.reg_pattern_matched);
    lemma_rd_opt_str_at(s, o10, m.finished_reg_pattern_matched);
}

} // verus!
