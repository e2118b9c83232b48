//! The persistence encoding of the records that survive a restart. A
//! record is a run of named fields, `name=length:payload;`, where the
//! length prefix counts the payload characters, so a payload may hold
//! anything. Decoding is strict: a name outside the record's field set,
//! a field given twice, or a required field absent each fail with their
//! own error, and anything that does not parse fails as malformed.

use crate::display::dec_string;
use crate::display::spec_dec;
use crate::display::spec_digit;
use crate::speech::Speech;
use crate::timer::Timespan;
use vstd::prelude::*;
use vstd::string::StrSliceExecFns;
use vstd::string::StringExecFns;

verus! {

/// Why a decode failed.
#[derive(Clone, Copy, Debug, PartialEq, Eq, Structural)]
pub enum DecodeError {
    /// A required field is absent.
    MissingField,
    /// A field occurs twice.
    DuplicateField,
    /// A field name outside the record's field set occurs.
    UnknownField,
    /// The text does not parse as a record, or a numeric payload does
    /// not fit.
    Malformed,
}

/// Whether `c` is a decimal digit.
pub open spec fn is_dec_digit(c: char) -> bool {
    c == '0' || c == '1' || c == '2' || c == '3' || c == '4' || c == '5' || c == '6' || c == '7'
        || c == '8' || c == '9'
}

/// The numeric value of a decimal digit, zero on anything else.
pub open spec fn dec_digit_val(c: char) -> nat {
    if c == '1' {
        1
    } else if c == '2' {
        2
    } else if c == '3' {
        3
    } else if c == '4' {
        4
    } else if c == '5' {
        5
    } else if c == '6' {
        6
    } else if c == '7' {
        7
    } else if c == '8' {
        8
    } else if c == '9' {
        9
    } else {
        0
    }
}

/// Whether every character of `s` is a decimal digit.
pub open spec fn all_digits(s: Seq<char>) -> bool {
    forall|k: int| 0 <= k < s.len() ==> is_dec_digit(#[trigger] s[k])
}

/// The numeric value of a digit run, most significant digit first.
pub open spec fn digits_val(s: Seq<char>) -> nat
    decreases s.len(),
{
    if s.len() == 0 {
        0
    } else {
        digits_val(s.drop_last()) * 10 + dec_digit_val(s.last())
    }
}

/// The number a digit run denotes, when it is one and fits the counter.
pub open spec fn spec_parse_u64(s: Seq<char>) -> Option<u64> {
    if s.len() > 0 && all_digits(s) && digits_val(s) <= u64::MAX {
        Some(digits_val(s) as u64)
    } else {
        None
    }
}

/// The first position at or after `i` where `ch` occurs.
pub open spec fn spec_find(s: Seq<char>, i: int, ch: char) -> Option<int>
    decreases s.len() - i,
{
    if i < 0 || i >= s.len() {
        None
    } else if s[i] == ch {
        Some(i)
    } else {
        spec_find(s, i + 1, ch)
    }
}

/// `spec_find` returns the first occurrence, or none where there is none.
proof fn lemma_find_spec(s: Seq<char>, i: int, ch: char)
    requires
        0 <= i <= s.len(),
    ensures
        match spec_find(s, i, ch) {
            Some(k) => i <= k < s.len() && s[k] == ch && (forall|j: int| i <= j < k ==> s[j] != ch),
            None => forall|j: int| i <= j < s.len() ==> s[j] != ch,
        },
    decreases s.len() - i,
{
    if i < s.len() && s[i] != ch {
        lemma_find_spec(s, i + 1, ch);
    }
}

/// A digit run is worth at least any of its prefixes.
proof fn lemma_digits_prefix(s: Seq<char>, j: int)
    requires
        0 <= j <= s.len(),
    ensures
        digits_val(s) >= digits_val(s.take(j)),
    decreases s.len() - j,
{
    if j == s.len() {
        assert(s.take(j) =~= s);
    } else {
        assert(s.take(j + 1).drop_last() =~= s.take(j));
        lemma_digits_prefix(s, j + 1);
    }
}

/// The decimal rendering of a number is all digits and nonempty.
pub proof fn lemma_dec_all_digits(n: nat)
    ensures
        all_digits(spec_dec(n)),
        spec_dec(n).len() >= 1,
    decreases n,
{
    if n < 10 {
    } else {
        lemma_dec_all_digits(n / 10);
        assert forall|k: int| 0 <= k < spec_dec(n).len() implies is_dec_digit(
            #[trigger] spec_dec(n)[k],
        ) by {
            if k < spec_dec(n / 10).len() {
                assert(spec_dec(n)[k] == spec_dec(n / 10)[k]);
            } else {
                assert(spec_dec(n)[k] == spec_digit(n % 10));
            }
        }
    }
}

/// Parsing the decimal rendering of a number gives the number back.
pub proof fn lemma_digits_val_dec(n: nat)
    ensures
        digits_val(spec_dec(n)) == n,
    decreases n,
{
    if n < 10 {
        assert(spec_dec(n) =~= seq![spec_digit(n)]);
        assert(spec_dec(n).drop_last() =~= Seq::<char>::empty());
        assert(spec_dec(n).last() == spec_digit(n));
        assert(dec_digit_val(spec_digit(n)) == n);
        assert(digits_val(Seq::<char>::empty()) == 0);
        assert(digits_val(spec_dec(n)) == digits_val(spec_dec(n).drop_last()) * 10 + dec_digit_val(
            spec_dec(n).last(),
        ));
    } else {
        lemma_digits_val_dec(n / 10);
        assert(spec_dec(n).drop_last() =~= spec_dec(n / 10));
        assert(spec_dec(n).last() == spec_digit(n % 10));
        assert(dec_digit_val(spec_digit(n % 10)) == n % 10);
        assert(digits_val(spec_dec(n)) == (n / 10) * 10 + n % 10);
    }
}

/// The first position at or after `from` where `ch` occurs.
fn find_char(s: &str, from: usize, ch: char) -> (r: Option<usize>)
    requires
        from <= s@.len(),
    ensures
        match r {
            Some(k) => spec_find(s@, from as int, ch) == Some(k as int),
            None => spec_find(s@, from as int, ch) is None,
        },
{
    let n = s.unicode_len();
    let mut j = from;
    while j < n
        invariant
            from <= j <= n,
            n == s@.len(),
            forall|i: int| from <= i < j ==> s@[i] != ch,
        decreases n - j,
    {
        let c = s.get_char(j);
        if c == ch {
            proof {
                lemma_find_spec(s@, from as int, ch);
            }
            return Some(j);
        }
        j = j + 1;
    }
    proof {
        lemma_find_spec(s@, from as int, ch);
    }
    None
}

/// The value of the digit run between `from` and `to`; nothing when the
/// run is empty, holds a non-digit, or does not fit the counter.
fn parse_digits_str(s: &str, from: usize, to: usize) -> (r: Option<u64>)
    requires
        from <= to <= s@.len(),
    ensures
        ({
            let sub = s@.subrange(from as int, to as int);
            match r {
                Some(v) => from < to && all_digits(sub) && digits_val(sub) == v,
                None => !(from < to && all_digits(sub)) || digits_val(sub) > u64::MAX,
            }
        }),
{
    if from >= to {
        return None;
    }
    let ghost sub = s@.subrange(from as int, to as int);
    let mut v: u64 = 0;
    let mut j = from;
    while j < to
        invariant
            from <= j <= to,
            to <= s@.len(),
            sub == s@.subrange(from as int, to as int),
            all_digits(s@.subrange(from as int, j as int)),
            digits_val(s@.subrange(from as int, j as int)) == v,
        decreases to - j,
    {
        let c = s.get_char(j);
        let d: u64 = match c {
            '0' => 0,
            '1' => 1,
            '2' => 2,
            '3' => 3,
            '4' => 4,
            '5' => 5,
            '6' => 6,
            '7' => 7,
            '8' => 8,
            '9' => 9,
            _ => {
                proof {
                    assert(sub[j - from] == c);
                    assert(!is_dec_digit(sub[j - from]));
                    assert(!all_digits(sub));
                }
                return None;
            },
        };
        let step = match v.checked_mul(10) {
            Some(x) => x.checked_add(d),
            None => None,
        };
        match step {
            Some(x) => {
                proof {
                    assert(s@.subrange(from as int, j as int + 1).drop_last() =~= s@.subrange(
                        from as int,
                        j as int,
                    ));
                    assert(s@.subrange(from as int, j as int + 1).last() == c);
                    assert(dec_digit_val(c) == d && is_dec_digit(c));
                    assert forall|k: int|
                        0 <= k < s@.subrange(from as int, j as int + 1).len() implies is_dec_digit(
                        #[trigger] s@.subrange(from as int, j as int + 1)[k],
                    ) by {
                        if k < j - from {
                            assert(s@.subrange(from as int, j as int + 1)[k] == s@.subrange(
                                from as int,
                                j as int,
                            )[k]);
                        }
                    }
                }
                v = x;
            },
            None => {
                proof {
                    assert(s@.subrange(from as int, j as int + 1).drop_last() =~= s@.subrange(
                        from as int,
                        j as int,
                    ));
                    assert(s@.subrange(from as int, j as int + 1).last() == c);
                    assert(dec_digit_val(c) == d);
                    assert(digits_val(s@.subrange(from as int, j as int + 1)) == v * 10 + d);
                    assert(v * 10 + d > u64::MAX);
                    assert(s@.subrange(from as int, j as int + 1) =~= sub.take(j - from + 1));
                    lemma_digits_prefix(sub, j - from + 1);
                }
                return None;
            },
        }
        j = j + 1;
    }
    proof {
        assert(s@.subrange(from as int, to as int) =~= sub);
    }
    Some(v)
}

/// The number the whole of `s` denotes, when it is a digit run that fits.
fn parse_u64_str(s: &str) -> (r: Option<u64>)
    ensures
        r == spec_parse_u64(s@),
{
    let n = s.unicode_len();
    let r = parse_digits_str(s, 0, n);
    proof {
        assert(s@.subrange(0, n as int) =~= s@);
    }
    r
}

/// One field at the head of `s`: its name, its payload, and how many
/// characters it spans; nothing when no field starts there.
pub open spec fn spec_parse_field(s: Seq<char>) -> Option<(Seq<char>, Seq<char>, int)> {
    match spec_find(s, 0, '=') {
        None => None,
        Some(e) => match spec_find(s, e + 1, ':') {
            None => None,
            Some(c) => {
                let lenpart = s.subrange(e + 1, c);
                if lenpart.len() > 0 && all_digits(lenpart) {
                    let l = digits_val(lenpart) as int;
                    if c + 1 + l < s.len() && s[c + 1 + l] == ';' {
                        Some((s.subrange(0, e), s.subrange(c + 1, c + 1 + l), c + l + 2))
                    } else {
                        None
                    }
                } else {
                    None
                }
            },
        },
    }
}

/// The whole of `s` split into fields, in order; nothing when any part
/// of it is not a field.
pub open spec fn spec_parse_fields(s: Seq<char>) -> Option<Seq<(Seq<char>, Seq<char>)>>
    decreases s.len(),
{
    if s.len() == 0 {
        Some(Seq::<(Seq<char>, Seq<char>)>::empty())
    } else {
        match spec_parse_field(s) {
            None => None,
            Some((name, payload, used)) => {
                if 1 <= used <= s.len() {
                    match spec_parse_fields(s.skip(used)) {
                        None => None,
                        Some(rest) => Some(seq![(name, payload)] + rest),
                    }
                } else {
                    None
                }
            },
        }
    }
}

/// The views of a parsed field list.
pub open spec fn pairs_view(v: Seq<(String, String)>) -> Seq<(Seq<char>, Seq<char>)> {
    v.map_values(|p: (String, String)| (p.0@, p.1@))
}

/// One field at the head of `s`, exactly as `spec_parse_field` has it.
fn parse_field(s: &str) -> (r: Option<(String, String, usize)>)
    ensures
        match r {
            Some(f) => spec_parse_field(s@) == Some((f.0@, f.1@, f.2 as int)) && 1 <= f.2
                <= s@.len(),
            None => spec_parse_field(s@) is None,
        },
{
    let n = s.unicode_len();
    let e = match find_char(s, 0, '=') {
        Some(e) => e,
        None => {
            return None;
        },
    };
    proof {
        lemma_find_spec(s@, 0, '=');
        assert(e < n);
    }
    let c = match find_char(s, e + 1, ':') {
        Some(c) => c,
        None => {
            return None;
        },
    };
    proof {
        lemma_find_spec(s@, e as int + 1, ':');
        assert(e + 1 <= c < n);
    }
    let ghost lenpart = s@.subrange(e + 1, c as int);
    let l64 = match parse_digits_str(s, e + 1, c) {
        Some(v) => v,
        None => {
            proof {
                if lenpart.len() > 0 && all_digits(lenpart) {
                    assert(digits_val(lenpart) > u64::MAX);
                    assert(c + 1 + digits_val(lenpart) >= s@.len());
                }
            }
            return None;
        },
    };
    if l64 >= (n - c - 1) as u64 {
        proof {
            assert(c + 1 + digits_val(lenpart) >= s@.len());
        }
        return None;
    }
    let l = l64 as usize;
    let stop = s.get_char(c + 1 + l);
    if stop != ';' {
        return None;
    }
    let name = s.substring_char(0, e).to_owned();
    let payload = s.substring_char(c + 1, c + 1 + l).to_owned();
    Some((name, payload, c + l + 2))
}

/// The whole of `s` split into fields, exactly as `spec_parse_fields`
/// has it.
fn parse_fields(s: &str) -> (r: Option<Vec<(String, String)>>)
    ensures
        match r {
            Some(v) => spec_parse_fields(s@) == Some(pairs_view(v@)),
            None => spec_parse_fields(s@) is None,
        },
{
    let mut out: Vec<(String, String)> = Vec::new();
    let mut rest: &str = s;
    proof {
        assert(pairs_view(out@) =~= Seq::<(Seq<char>, Seq<char>)>::empty());
    }
    while !rest.is_empty()
        invariant
            (spec_parse_fields(rest@) matches Some(tail) ==> spec_parse_fields(s@) == Some(
                pairs_view(out@) + tail,
            )),
            (spec_parse_fields(rest@) is None ==> spec_parse_fields(s@) is None),
        decreases rest@.len(),
    {
        let f = match parse_field(rest) {
            Some(f) => f,
            None => {
                return None;
            },
        };
        let used = f.2;
        let ghost prev = rest@;
        let ghost out_prev = out@;
        out.push((f.0, f.1));
        let m = rest.unicode_len();
        rest = rest.substring_char(used, m);
        proof {
            assert(rest@ == prev.skip(used as int));
            assert(pairs_view(out@) =~= pairs_view(out_prev).push(
                (out@.last().0@, out@.last().1@),
            ));
            if spec_parse_fields(rest@) is Some {
                let tail = spec_parse_fields(rest@)->Some_0;
                assert(spec_parse_fields(prev) == Some(
                    seq![(out@.last().0@, out@.last().1@)] + tail,
                ));
                assert(pairs_view(out_prev) + (seq![(out@.last().0@, out@.last().1@)] + tail)
                    =~= pairs_view(out@) + tail);
            }
        }
    }
    proof {
        assert(rest@.len() == 0);
        assert(spec_parse_fields(rest@) == Some(Seq::<(Seq<char>, Seq<char>)>::empty()));
        assert(pairs_view(out@) + Seq::<(Seq<char>, Seq<char>)>::empty() =~= pairs_view(out@));
    }
    Some(out)
}

/// The view of an optionally held payload.
pub open spec fn opt_str_view(c: Option<String>) -> Option<Seq<char>> {
    match c {
        Option::None => None,
        Option::Some(x) => Some(x@),
    }
}

/// Walking a speech record's fields into its two slots: a `duration`
/// and a `category`, each required exactly once, nothing else accepted.
pub open spec fn spec_speech_from_fields(
    fields: Seq<(Seq<char>, Seq<char>)>,
    dur: Option<u64>,
    cat: Option<Seq<char>>,
) -> Result<(u64, Seq<char>), DecodeError>
    decreases fields.len(),
{
    if fields.len() == 0 {
        if dur is None {
            Err(DecodeError::MissingField)
        } else if cat is None {
            Err(DecodeError::MissingField)
        } else {
            Ok((dur->Some_0, cat->Some_0))
        }
    } else {
        let name = fields[0].0;
        let payload = fields[0].1;
        if name == "duration"@ {
            if dur is Some {
                Err(DecodeError::DuplicateField)
            } else {
                match spec_parse_u64(payload) {
                    None => Err(DecodeError::Malformed),
                    Some(v) => spec_speech_from_fields(fields.drop_first(), Some(v), cat),
                }
            }
        } else if name == "category"@ {
            if cat is Some {
                Err(DecodeError::DuplicateField)
            } else {
                spec_speech_from_fields(fields.drop_first(), dur, Some(payload))
            }
        } else {
            Err(DecodeError::UnknownField)
        }
    }
}

/// What decoding a speech record from `s` gives: its duration and
/// category, or the error.
pub open spec fn spec_decode_speech(s: Seq<char>) -> Result<(u64, Seq<char>), DecodeError> {
    match spec_parse_fields(s) {
        None => Err(DecodeError::Malformed),
        Some(fs) => spec_speech_from_fields(fs, None, None),
    }
}

/// Walking a timer record's fields into its one slot: the integral
/// `elapsed` seconds, required exactly once, nothing else accepted.
pub open spec fn spec_timespan_from_fields(
    fields: Seq<(Seq<char>, Seq<char>)>,
    el: Option<u64>,
) -> Result<u64, DecodeError>
    decreases fields.len(),
{
    if fields.len() == 0 {
        match el {
            None => Err(DecodeError::MissingField),
            Some(v) => Ok(v),
        }
    } else {
        let name = fields[0].0;
        let payload = fields[0].1;
        if name == "elapsed"@ {
            if el is Some {
                Err(DecodeError::DuplicateField)
            } else {
                match spec_parse_u64(payload) {
                    None => Err(DecodeError::Malformed),
                    Some(v) => spec_timespan_from_fields(fields.drop_first(), Some(v)),
                }
            }
        } else {
            Err(DecodeError::UnknownField)
        }
    }
}

/// What decoding a timer record from `s` gives: the elapsed whole
/// seconds, or the error.
pub open spec fn spec_decode_timespan(s: Seq<char>) -> Result<u64, DecodeError> {
    match spec_parse_fields(s) {
        None => Err(DecodeError::Malformed),
        Some(fs) => spec_timespan_from_fields(fs, None),
    }
}

/// One encoded field: the name, `=`, the payload length in decimal,
/// `:`, the payload, `;`.
pub open spec fn spec_field_enc(name: Seq<char>, payload: Seq<char>) -> Seq<char> {
    name + seq!['='] + spec_dec(payload.len()) + seq![':'] + payload + seq![';']
}

/// The encoded speech record: its duration in decimal, then its category.
pub open spec fn spec_encode_speech(duration: u64, category: Seq<char>) -> Seq<char> {
    spec_field_enc("duration"@, spec_dec(duration as nat)) + spec_field_enc("category"@, category)
}

/// The encoded timer record: the integral elapsed seconds only; whether
/// the timer runs, and any sub-second fraction, are not persisted.
pub open spec fn spec_encode_timespan(elapsed: u64) -> Seq<char> {
    spec_field_enc("elapsed"@, spec_dec(elapsed as nat))
}

/// One encoded field, exactly `spec_field_enc`.
fn encode_field(name: &str, payload: &str) -> (r: String)
    ensures
        r@ == spec_field_enc(name@, payload@),
{
    proof {
        reveal_strlit("=");
        reveal_strlit(":");
        reveal_strlit(";");
    }
    let mut s = name.to_owned();
    s.append("=");
    let l = payload.unicode_len();
    let ls = dec_string(l as u64);
    s.append(ls.as_str());
    s.append(":");
    s.append(payload);
    s.append(";");
    proof {
        assert(s@ =~= spec_field_enc(name@, payload@));
    }
    s
}

/// A speech record's fields taken into a speech, with the strict field
/// errors.
fn decode_speech_fields(fields: &Vec<(String, String)>) -> (r: Result<Speech, DecodeError>)
    ensures
        ({
            let d = spec_speech_from_fields(pairs_view(fields@), None, None);
            match r {
                Ok(sp) => d == Ok::<_, DecodeError>((sp.duration, sp.category@)),
                Err(e) => d == Err::<(u64, Seq<char>), _>(e),
            }
        }),
{
    let dur_key: String = "duration".to_owned();
    let cat_key: String = "category".to_owned();
    let mut dur: Option<u64> = None;
    let mut cat: Option<String> = None;
    let mut j: usize = 0;
    proof {
        assert(pairs_view(fields@).skip(0) =~= pairs_view(fields@));
    }
    while j < fields.len()
        invariant
            j <= fields@.len(),
            spec_speech_from_fields(pairs_view(fields@), None, None) == spec_speech_from_fields(
                pairs_view(fields@).skip(j as int),
                dur,
                opt_str_view(cat),
            ),
            dur_key@ == "duration"@,
            cat_key@ == "category"@,
        decreases fields@.len() - j,
    {
        proof {
            assert(pairs_view(fields@).skip(j as int)[0] == pairs_view(fields@)[j as int]);
            assert(pairs_view(fields@).skip(j as int).drop_first() =~= pairs_view(
                fields@,
            ).skip(j as int + 1));
        }
        let name = &fields[j].0;
        let payload = &fields[j].1;
        if *name == dur_key {
            if dur.is_some() {
                return Err(DecodeError::DuplicateField);
            }
            match parse_u64_str(payload.as_str()) {
                None => {
                    return Err(DecodeError::Malformed);
                },
                Some(v) => {
                    dur = Some(v);
                },
            }
        } else if *name == cat_key {
            if cat.is_some() {
                return Err(DecodeError::DuplicateField);
            }
            cat = Some(payload.clone());
        } else {
            return Err(DecodeError::UnknownField);
        }
        j = j + 1;
    }
    proof {
        assert(pairs_view(fields@).skip(j as int) =~= Seq::<(Seq<char>, Seq<char>)>::empty());
    }
    let d = match dur {
        None => {
            return Err(DecodeError::MissingField);
        },
        Some(d) => d,
    };
    match cat {
        None => Err(DecodeError::MissingField),
        Some(c) => Ok(Speech { duration: d, category: c }),
    }
}

/// A timer record's fields taken into a timer, with the strict field
/// errors.
fn decode_timespan_fields(fields: &Vec<(String, String)>) -> (r: Result<Timespan, DecodeError>)
    ensures
        ({
            let d = spec_timespan_from_fields(pairs_view(fields@), None);
            match r {
                Ok(t) => d == Ok::<_, DecodeError>(t.elapsed) && !t.spec_is_running(),
                Err(e) => d == Err::<u64, _>(e),
            }
        }),
{
    let el_key: String = "elapsed".to_owned();
    let mut el: Option<u64> = None;
    let mut j: usize = 0;
    proof {
        assert(pairs_view(fields@).skip(0) =~= pairs_view(fields@));
    }
    while j < fields.len()
        invariant
            j <= fields@.len(),
            spec_timespan_from_fields(pairs_view(fields@), None) == spec_timespan_from_fields(
                pairs_view(fields@).skip(j as int),
                el,
            ),
            el_key@ == "elapsed"@,
        decreases fields@.len() - j,
    {
        proof {
            assert(pairs_view(fields@).skip(j as int)[0] == pairs_view(fields@)[j as int]);
            assert(pairs_view(fields@).skip(j as int).drop_first() =~= pairs_view(
                fields@,
            ).skip(j as int + 1));
        }
        let name = &fields[j].0;
        let payload = &fields[j].1;
        if *name == el_key {
            if el.is_some() {
                return Err(DecodeError::DuplicateField);
            }
            match parse_u64_str(payload.as_str()) {
                None => {
                    return Err(DecodeError::Malformed);
                },
                Some(v) => {
                    el = Some(v);
                },
            }
        } else {
            return Err(DecodeError::UnknownField);
        }
        j = j + 1;
    }
    proof {
        assert(pairs_view(fields@).skip(j as int) =~= Seq::<(Seq<char>, Seq<char>)>::empty());
    }
    match el {
        None => Err(DecodeError::MissingField),
        Some(v) => Ok(Timespan { elapsed: v, start: None }),
    }
}

impl Speech {
    /// The persisted record of this speech.
    pub fn encode(&self) -> (r: String)
        ensures
            r@ == spec_encode_speech(self.duration, self.category@),
    {
        let d = dec_string(self.duration);
        let mut out = encode_field("duration", d.as_str());
        let f2 = encode_field("category", self.category.as_str());
        out.append(f2.as_str());
        proof {
            assert(out@ =~= spec_encode_speech(self.duration, self.category@));
        }
        out
    }

    /// The speech a persisted record holds, or the strict decode error.
    pub fn decode(s: &str) -> (r: Result<Speech, DecodeError>)
        ensures
            ({
                let d = spec_decode_speech(s@);
                match r {
                    Ok(sp) => d == Ok::<_, DecodeError>((sp.duration, sp.category@)),
                    Err(e) => d == Err::<(u64, Seq<char>), _>(e),
                }
            }),
    {
        match parse_fields(s) {
            None => Err(DecodeError::Malformed),
            Some(fields) => decode_speech_fields(&fields),
        }
    }
}

impl Timespan {
    /// The persisted record of this timer: the integral elapsed seconds
    /// it shows at this instant; running state is not persisted, so a
    /// restore always starts stopped.
    pub fn encode(&self) -> (r: String)
        ensures
            !self.spec_is_running() ==> r@ == spec_encode_timespan(self.elapsed),
            exists|e: u64| e >= self.elapsed && r@ == spec_encode_timespan(e),
    {
        let e = self.elapsed();
        let d = dec_string(e);
        let r = encode_field("elapsed", d.as_str());
        proof {
            assert(r@ =~= spec_encode_timespan(e));
            assert(e >= self.elapsed && r@ == spec_encode_timespan(e));
        }
        r
    }

    /// The stopped timer a persisted record holds, or the strict decode
    /// error.
    pub fn decode(s: &str) -> (r: Result<Timespan, DecodeError>)
        ensures
            ({
                let d = spec_decode_timespan(s@);
                match r {
                    Ok(t) => d == Ok::<_, DecodeError>(t.elapsed) && !t.spec_is_running(),
                    Err(e) => d == Err::<u64, _>(e),
                }
            }),
    {
        match parse_fields(s) {
            None => Err(DecodeError::Malformed),
            Some(fields) => decode_timespan_fields(&fields),
        }
    }
}

/// Parsing one field off an encoded field followed by anything gives
/// back exactly the name and payload that were encoded.
proof fn lemma_parse_field_enc(name: Seq<char>, payload: Seq<char>, rest: Seq<char>)
    requires
        forall|j: int| 0 <= j < name.len() ==> name[j] != '=',
    ensures
        spec_parse_field(spec_field_enc(name, payload) + rest) == Some(
            (name, payload, spec_field_enc(name, payload).len() as int),
        ),
{
    let ln = spec_dec(payload.len());
    let enc = spec_field_enc(name, payload);
    let s = enc + rest;
    lemma_dec_all_digits(payload.len());
    lemma_digits_val_dec(payload.len());
    let e = name.len() as int;
    let c = e + 1 + ln.len() as int;
    assert(enc.len() == name.len() + ln.len() + payload.len() + 3);
    assert forall|j: int| 0 <= j < name.len() implies s[j] == name[j] by {}
    assert(s[e] == '=');
    assert forall|j: int| 0 <= j < ln.len() implies s[e + 1 + j] == ln[j] by {}
    assert(s[c] == ':');
    assert forall|j: int| 0 <= j < payload.len() implies s[c + 1 + j] == payload[j] by {}
    assert(s[c + 1 + payload.len()] == ';');
    lemma_find_spec(s, 0, '=');
    assert(spec_find(s, 0, '=') == Some(e)) by {
        if spec_find(s, 0, '=') is None {
            assert(s[e] == '=');
            assert(false);
        } else {
            let k = spec_find(s, 0, '=')->Some_0;
            if k < e {
                assert(s[k] == name[k]);
                assert(false);
            }
            if k > e {
                assert(s[e] != '=');
                assert(false);
            }
        }
    }
    lemma_find_spec(s, e + 1, ':');
    assert(spec_find(s, e + 1, ':') == Some(c)) by {
        if spec_find(s, e + 1, ':') is None {
            assert(s[c] == ':');
            assert(false);
        } else {
            let k = spec_find(s, e + 1, ':')->Some_0;
            if k < c {
                assert(s[k] == ln[k - e - 1]);
                assert(is_dec_digit(ln[k - e - 1]));
                assert(false);
            }
            if k > c {
                assert(s[c] != ':');
                assert(false);
            }
        }
    }
    assert(s.subrange(e + 1, c) =~= ln);
    assert(digits_val(ln) == payload.len());
    assert(c + 1 + payload.len() < s.len());
    assert(s.subrange(0, e) =~= name);
    assert(s.subrange(c + 1, c + 1 + payload.len()) =~= payload);
    assert(c + payload.len() + 2 == enc.len());
}

/// A record of one encoded field parses to exactly that field.
proof fn lemma_parse_fields_enc1(name: Seq<char>, payload: Seq<char>)
    requires
        forall|j: int| 0 <= j < name.len() ==> name[j] != '=',
    ensures
        spec_parse_fields(spec_field_enc(name, payload)) == Some(seq![(name, payload)]),
{
    let enc = spec_field_enc(name, payload);
    lemma_parse_field_enc(name, payload, Seq::<char>::empty());
    assert(enc + Seq::<char>::empty() =~= enc);
    assert(enc.skip(enc.len() as int) =~= Seq::<char>::empty());
    assert(spec_parse_fields(Seq::<char>::empty()) == Some(
        Seq::<(Seq<char>, Seq<char>)>::empty(),
    ));
    assert(seq![(name, payload)] + Seq::<(Seq<char>, Seq<char>)>::empty() =~= seq![
        (name, payload),
    ]);
}

/// A record of two encoded fields parses to exactly those two fields.
proof fn lemma_parse_fields_enc2(n1: Seq<char>, p1: Seq<char>, n2: Seq<char>, p2: Seq<char>)
    requires
        forall|j: int| 0 <= j < n1.len() ==> n1[j] != '=',
        forall|j: int| 0 <= j < n2.len() ==> n2[j] != '=',
    ensures
        spec_parse_fields(spec_field_enc(n1, p1) + spec_field_enc(n2, p2)) == Some(
            seq![(n1, p1), (n2, p2)],
        ),
{
    let enc1 = spec_field_enc(n1, p1);
    let enc2 = spec_field_enc(n2, p2);
    let s = enc1 + enc2;
    lemma_parse_field_enc(n1, p1, enc2);
    assert(s.skip(enc1.len() as int) =~= enc2);
    lemma_parse_fields_enc1(n2, p2);
    assert(seq![(n1, p1)] + seq![(n2, p2)] =~= seq![(n1, p1), (n2, p2)]);
}

/// Law: a persisted timer record survives the round trip. Decoding what
/// `spec_encode_timespan` produced gives back exactly the elapsed
/// seconds that were encoded, so re-encoding the decoded value yields
/// the identical text.
pub proof fn lemma_timespan_roundtrip(e: u64)
    ensures
        spec_decode_timespan(spec_encode_timespan(e)) == Ok::<u64, DecodeError>(e),
{
    reveal_strlit("elapsed");
    assert(forall|j: int| 0 <= j < "elapsed"@.len() ==> "elapsed"@[j] != '=');
    lemma_parse_fields_enc1("elapsed"@, spec_dec(e as nat));
    lemma_dec_all_digits(e as nat);
    lemma_digits_val_dec(e as nat);
    let fields = seq![("elapsed"@, spec_dec(e as nat))];
    assert(spec_parse_u64(spec_dec(e as nat)) == Some(e));
    assert(fields.drop_first() =~= Seq::<(Seq<char>, Seq<char>)>::empty());
    assert(spec_timespan_from_fields(fields.drop_first(), Some(e)) == Ok::<u64, DecodeError>(e));
    assert(spec_timespan_from_fields(fields, None) == Ok::<u64, DecodeError>(e));
}

/// Law: a persisted speech record survives the round trip, whatever the
/// category text holds. Decoding what `spec_encode_speech` produced
/// gives back exactly the duration and category that were encoded, so
/// re-encoding the decoded value yields the identical text.
pub proof fn lemma_speech_roundtrip(d: u64, category: Seq<char>)
    ensures
        spec_decode_speech(spec_encode_speech(d, category)) == Ok::<(u64, Seq<char>), DecodeError>(
            (d, category),
        ),
{
    reveal_strlit("duration");
    reveal_strlit("category");
    assert(forall|j: int| 0 <= j < "duration"@.len() ==> "duration"@[j] != '=');
    assert(forall|j: int| 0 <= j < "category"@.len() ==> "category"@[j] != '=');
    lemma_parse_fields_enc2("duration"@, spec_dec(d as nat), "category"@, category);
    lemma_dec_all_digits(d as nat);
    lemma_digits_val_dec(d as nat);
    let fields = seq![("duration"@, spec_dec(d as nat)), ("category"@, category)];
    assert(spec_parse_u64(spec_dec(d as nat)) == Some(d));
    assert(("category"@) != ("duration"@)) by {
        assert(("category"@)[0] == 'c');
        assert(("duration"@)[0] == 'd');
    }
    assert(fields[0].0 == "duration"@);
    let fields1 = fields.drop_first();
    assert(fields1[0].0 == "category"@);
    assert(fields1.drop_first() =~= Seq::<(Seq<char>, Seq<char>)>::empty());
    assert(spec_speech_from_fields(fields1.drop_first(), Some(d), Some(category)) == Ok::<
        (u64, Seq<char>),
        DecodeError,
    >((d, category)));
    assert(spec_speech_from_fields(fields1, Some(d), None) == Ok::<
        (u64, Seq<char>),
        DecodeError,
    >((d, category)));
    assert(spec_speech_from_fields(fields, None, None) == Ok::<(u64, Seq<char>), DecodeError>(
        (d, category),
    ));
}

} // verus!
