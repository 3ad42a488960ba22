use vstd::prelude::*;

use crate::textutil::{copy_range, is_prefix, spec_trim, starts_with, trim, views_of};
use crate::weight::{all_dec_digits, dec_digits, dec_val, is_dec_digit};

verus! {

/// Append a byte slice to a vector.
pub fn append_bytes(out: &mut Vec<u8>, s: &[u8])
    ensures
        final(out)@ == old(out)@ + s@,
{
    let mut i: usize = 0;
    while i < s.len()
        invariant
            i <= s@.len(),
            out@ == old(out)@ + s@.take(i as int),
        decreases s@.len() - i,
    {
        out.push(s[i]);
        proof {
            assert(old(out)@ + s@.take(i + 1) =~= (old(out)@ + s@.take(i as int)).push(
                s@[i as int],
            ));
        }
        i = i + 1;
    }
    proof {
        assert(old(out)@ + s@.take(s@.len() as int) =~= old(out)@ + s@);
    }
}

/// A quoted scalar loses its surrounding double quotes.
pub open spec fn spec_unquote(v: Seq<u8>) -> Seq<u8> {
    if v.len() >= 2 && v[0] == 0x22u8 && v.last() == 0x22u8 {
        v.subrange(1, v.len() - 1)
    } else {
        v
    }
}

/// A scalar value: whitespace trimmed, then unquoted.
pub open spec fn spec_clean_value(v: Seq<u8>) -> Seq<u8> {
    spec_unquote(spec_trim(v))
}

/// Trim and unquote a scalar value.
pub fn clean_value(v: &[u8]) -> (r: Vec<u8>)
    ensures
        r@ == spec_clean_value(v@),
{
    let t = trim(v);
    if t.len() >= 2 && t[0] == 0x22 && t[t.len() - 1] == 0x22 {
        copy_range(t.as_slice(), 1, t.len() - 1)
    } else {
        t
    }
}

/// Does this line carry the given key? True when its trimmed form
/// starts with `key:`.
pub open spec fn spec_is_key_line(line: Seq<u8>, key: Seq<u8>) -> bool {
    is_prefix(spec_trim(line), key + seq![0x3au8])
}

/// The scalar value carried by a key line: what follows the colon,
/// cleaned.
pub open spec fn spec_key_value(line: Seq<u8>, key: Seq<u8>) -> Seq<u8> {
    spec_clean_value(spec_trim(line).skip(key.len() as int + 1))
}

/// Index of the first line carrying the key.
pub open spec fn spec_find_key(lines: Seq<Seq<u8>>, key: Seq<u8>) -> Option<int>
    decreases lines.len(),
{
    if lines.len() == 0 {
        None
    } else if spec_is_key_line(lines[0], key) {
        Some(0)
    } else {
        match spec_find_key(lines.skip(1), key) {
            Some(i) => Some(i + 1),
            None => None,
        }
    }
}

pub proof fn lemma_find_key_characterizes(lines: Seq<Seq<u8>>, key: Seq<u8>)
    ensures
        match spec_find_key(lines, key) {
            Some(i) => 0 <= i < lines.len() && spec_is_key_line(lines[i], key) && (forall|j: int|
                0 <= j < i ==> !spec_is_key_line(#[trigger] lines[j], key)),
            None => forall|j: int|
                0 <= j < lines.len() ==> !spec_is_key_line(#[trigger] lines[j], key),
        },
    decreases lines.len(),
{
    if lines.len() == 0 {
    } else if spec_is_key_line(lines[0], key) {
    } else {
        lemma_find_key_characterizes(lines.skip(1), key);
        let t = lines.skip(1);
        match spec_find_key(t, key) {
            Some(i2) => {
                assert(t[i2] == lines[i2 + 1]);
                assert forall|j: int|
                    0 <= j < i2 + 1 implies !spec_is_key_line(#[trigger] lines[j], key) by {
                    if j >= 1 {
                        assert(t[j - 1] == lines[j]);
                    }
                }
            },
            None => {
                assert forall|j: int|
                    0 <= j < lines.len() implies !spec_is_key_line(#[trigger] lines[j], key) by {
                    if j >= 1 {
                        assert(t[j - 1] == lines[j]);
                    }
                }
            },
        }
    }
}

/// The scalar value of the first line carrying the key, if any.
pub open spec fn spec_lookup_key(lines: Seq<Seq<u8>>, key: Seq<u8>) -> Option<Seq<u8>> {
    match spec_find_key(lines, key) {
        Some(i) => Some(spec_key_value(lines[i], key)),
        None => None,
    }
}

/// Find the first line carrying the key and return its index.
fn find_key(lines: &Vec<Vec<u8>>, key: &[u8]) -> (r: Option<usize>)
    ensures
        match r {
            Some(i) => spec_find_key(views_of(lines@), key@) == Some(i as int) && i < lines@.len(),
            None => spec_find_key(views_of(lines@), key@) is None,
        },
{
    let ghost lv = views_of(lines@);
    let mut key_colon = copy_range(key, 0, key.len());
    key_colon.push(0x3a);
    proof {
        assert(key_colon@ =~= key@ + seq![0x3au8]);
    }
    let mut i: usize = 0;
    while i < lines.len()
        invariant
            i <= lines@.len(),
            lv == views_of(lines@),
            lv.len() == lines@.len(),
            forall|j: int| 0 <= j < lv.len() ==> lv[j] == #[trigger] lines@[j]@,
            key_colon@ == key@ + seq![0x3au8],
            forall|j: int| 0 <= j < i ==> !spec_is_key_line(#[trigger] lv[j], key@),
        decreases lines@.len() - i,
    {
        let t = trim(lines[i].as_slice());
        if starts_with(t.as_slice(), key_colon.as_slice()) {
            proof {
                assert(spec_is_key_line(lv[i as int], key@));
                lemma_find_key_characterizes(lv, key@);
                match spec_find_key(lv, key@) {
                    Some(f) => {
                        if f < i {
                            assert(!spec_is_key_line(lv[f], key@));
                        } else if f > i {
                            assert(!spec_is_key_line(lv[i as int], key@));
                        }
                    },
                    None => {
                        assert(!spec_is_key_line(lv[i as int], key@));
                    },
                }
            }
            return Some(i);
        }
        i = i + 1;
    }
    proof {
        lemma_find_key_characterizes(lv, key@);
        match spec_find_key(lv, key@) {
            Some(f) => {
                assert(!spec_is_key_line(lv[f], key@));
            },
            None => {},
        }
    }
    None
}

/// Look up a scalar key among the lines: the cleaned value after the
/// colon of the first line whose trimmed form starts with `key:`.
pub fn lookup_key(lines: &Vec<Vec<u8>>, key: &[u8]) -> (r: Option<Vec<u8>>)
    ensures
        match r {
            Some(v) => spec_lookup_key(views_of(lines@), key@) == Some(v@),
            None => spec_lookup_key(views_of(lines@), key@) is None,
        },
{
    let ghost lv = views_of(lines@);
    match find_key(lines, key) {
        Some(i) => {
            let t = trim(lines[i].as_slice());
            proof {
                lemma_find_key_characterizes(lv, key@);
                assert(lv[i as int] == lines@[i as int]@);
                assert(spec_is_key_line(lv[i as int], key@));
                assert(is_prefix(spec_trim(lv[i as int]), key@ + seq![0x3au8]));
                assert((key@ + seq![0x3au8]).len() == key@.len() + 1);
                assert(t@.len() >= key@.len() + 1);
            }
            let tl = t.len();
            let kl = key.len();
            let rest = copy_range(t.as_slice(), kl + 1, tl);
            proof {
                assert(rest@ =~= spec_trim(lv[i as int]).skip(key@.len() as int + 1));
            }
            Some(clean_value(rest.as_slice()))
        },
        None => None,
    }
}

/// The items of a block list: consecutive following lines whose
/// trimmed form starts with `- `, each cleaned.
pub open spec fn spec_collect_items(lines: Seq<Seq<u8>>) -> Seq<Seq<u8>>
    decreases lines.len(),
{
    if lines.len() == 0 {
        Seq::empty()
    } else if is_prefix(spec_trim(lines[0]), seq![0x2du8, 0x20u8]) {
        seq![spec_clean_value(spec_trim(lines[0]).skip(2))] + spec_collect_items(lines.skip(1))
    } else {
        Seq::empty()
    }
}

/// Collect the items of a block list that starts at `from`.
fn collect_items(lines: &Vec<Vec<u8>>, from: usize) -> (r: Vec<Vec<u8>>)
    requires
        from <= lines@.len(),
    ensures
        views_of(r@) == spec_collect_items(views_of(lines@).skip(from as int)),
{
    let ghost lv = views_of(lines@);
    let mut r: Vec<Vec<u8>> = Vec::new();
    let mut i: usize = from;
    proof {
        assert(views_of(r@) =~= Seq::<Seq<u8>>::empty());
        assert(views_of(r@) + spec_collect_items(lv.skip(from as int)) =~= spec_collect_items(
            lv.skip(from as int),
        ));
    }
    while i < lines.len()
        invariant
            from <= i <= lines@.len(),
            lv == views_of(lines@),
            lv.len() == lines@.len(),
            forall|j: int| 0 <= j < lv.len() ==> lv[j] == #[trigger] lines@[j]@,
            views_of(r@) + spec_collect_items(lv.skip(i as int)) == spec_collect_items(
                lv.skip(from as int),
            ),
        decreases lines@.len() - i,
    {
        let t = trim(lines[i].as_slice());
        let dash: [u8; 2] = [0x2d, 0x20];
        proof {
            assert(dash@ =~= seq![0x2du8, 0x20u8]);
            assert(lv.skip(i as int)[0] == lv[i as int]);
            assert(lv.skip(i as int).skip(1) =~= lv.skip(i + 1));
        }
        if starts_with(t.as_slice(), &dash) {
            let rest = copy_range(t.as_slice(), 2, t.len());
            proof {
                assert(rest@ =~= spec_trim(lv[i as int]).skip(2));
            }
            let item = clean_value(rest.as_slice());
            let ghost before = views_of(r@);
            r.push(item);
            proof {
                assert(views_of(r@) =~= before.push(item@));
                assert(views_of(r@) + spec_collect_items(lv.skip(i + 1)) =~= before + (seq![item@]
                    + spec_collect_items(lv.skip(i + 1))));
                assert(spec_collect_items(lv.skip(i as int)) == seq![item@] + spec_collect_items(
                    lv.skip(i + 1),
                ));
            }
            i = i + 1;
        } else {
            proof {
                assert(spec_collect_items(lv.skip(i as int)) =~= Seq::<Seq<u8>>::empty());
                assert(views_of(r@) =~= spec_collect_items(lv.skip(from as int)));
            }
            return r;
        }
    }
    proof {
        assert(lv.skip(i as int) =~= Seq::<Seq<u8>>::empty());
        assert(views_of(r@) =~= spec_collect_items(lv.skip(from as int)));
    }
    r
}

/// What a `require`-style key denotes: the block list under the key
/// when it is non-empty, else the scalar value when it is non-empty,
/// else nothing.
pub open spec fn spec_key_values(lines: Seq<Seq<u8>>, key: Seq<u8>) -> Seq<Seq<u8>> {
    match spec_find_key(lines, key) {
        Some(i) => {
            let scalar = spec_key_value(lines[i], key);
            let items = spec_collect_items(lines.skip(i + 1));
            if items.len() > 0 {
                items
            } else if scalar.len() > 0 {
                seq![scalar]
            } else {
                Seq::empty()
            }
        },
        None => Seq::empty(),
    }
}

/// Look up a key that accepts either a single scalar or a block list.
/// A non-empty list takes precedence; a non-empty scalar yields a
/// single-element list; otherwise the result is empty.
pub fn lookup_key_values(lines: &Vec<Vec<u8>>, key: &[u8]) -> (r: Vec<Vec<u8>>)
    ensures
        views_of(r@) == spec_key_values(views_of(lines@), key@),
{
    let ghost lv = views_of(lines@);
    match find_key(lines, key) {
        Some(i) => {
            let t = trim(lines[i].as_slice());
            proof {
                lemma_find_key_characterizes(lv, key@);
                assert(lv[i as int] == lines@[i as int]@);
                assert(spec_is_key_line(lv[i as int], key@));
                assert(is_prefix(spec_trim(lv[i as int]), key@ + seq![0x3au8]));
                assert((key@ + seq![0x3au8]).len() == key@.len() + 1);
                assert(t@.len() >= key@.len() + 1);
            }
            let tl = t.len();
            let kl = key.len();
            let rest = copy_range(t.as_slice(), kl + 1, tl);
            proof {
                assert(rest@ =~= spec_trim(lv[i as int]).skip(key@.len() as int + 1));
            }
            let scalar = clean_value(rest.as_slice());
            let ln = lines.len();
            let items = collect_items(lines, if i < ln { i + 1 } else { ln });
            proof {
                assert(i + 1 <= ln);
            }
            if items.len() > 0 {
                items
            } else if scalar.len() > 0 {
                let mut r: Vec<Vec<u8>> = Vec::new();
                r.push(scalar);
                proof {
                    assert(views_of(r@) =~= seq![spec_key_value(lv[i as int], key@)]);
                }
                r
            } else {
                let r: Vec<Vec<u8>> = Vec::new();
                proof {
                    assert(views_of(r@) =~= Seq::<Seq<u8>>::empty());
                }
                r
            }
        },
        None => {
            let r: Vec<Vec<u8>> = Vec::new();
            proof {
                assert(views_of(r@) =~= Seq::<Seq<u8>>::empty());
            }
            r
        },
    }
}

/// A fraction scalar `a/b`: the two digit strings, if well-formed.
pub open spec fn spec_parse_fraction(v: Seq<u8>) -> Option<(Seq<u8>, Seq<u8>)> {
    match crate::textutil::spec_find_byte(v, 0x2fu8) {
        Some(i) => {
            if 0 <= i < v.len() && dec_digits(v.take(i)) && dec_digits(v.skip(i + 1)) {
                Some((v.take(i), v.skip(i + 1)))
            } else {
                None
            }
        },
        None => None,
    }
}

/// Is every byte a decimal digit?
pub fn check_all_digits(s: &[u8]) -> (r: bool)
    ensures
        r == all_dec_digits(s@),
{
    let mut i: usize = 0;
    while i < s.len()
        invariant
            i <= s@.len(),
            forall|j: int| 0 <= j < i ==> is_dec_digit(#[trigger] s@[j]),
        decreases s@.len() - i,
    {
        if s[i] < 0x30 || s[i] > 0x39 {
            return false;
        }
        i = i + 1;
    }
    true
}

/// Parse a fraction scalar `a/b` into its numerator and denominator
/// digit strings.
pub fn parse_fraction(v: &[u8]) -> (r: Option<(Vec<u8>, Vec<u8>)>)
    ensures
        match r {
            Some(p) => spec_parse_fraction(v@) == Some((p.0@, p.1@)),
            None => spec_parse_fraction(v@) is None,
        },
{
    match crate::textutil::find_byte(v, 0x2f) {
        Some(i) => {
            proof {
                crate::textutil::lemma_find_byte_characterizes(v@, 0x2fu8);
            }
            let n = v.len();
            let num = copy_range(v, 0, i);
            let den = copy_range(v, i + 1, n);
            proof {
                assert(num@ =~= v@.take(i as int));
                assert(den@ =~= v@.skip(i + 1));
            }
            if num.len() == 0 || den.len() == 0 {
                return None;
            }
            if !check_all_digits(num.as_slice()) {
                return None;
            }
            if !check_all_digits(den.as_slice()) {
                return None;
            }
            Some((num, den))
        },
        None => None,
    }
}

/// Does a version scalar denote the supported format version, one
/// tenth? True exactly for fractions `a/b` with a nonzero denominator
/// and `10 a == b`.
pub open spec fn spec_version_is_current(v: Seq<u8>) -> bool {
    match spec_parse_fraction(v) {
        Some(p) => dec_val(p.1) > 0 && dec_val(p.0) * 10 == dec_val(p.1),
        None => false,
    }
}

/// Check a version scalar against the supported format version.
pub fn version_is_current(v: &[u8]) -> (r: bool)
    ensures
        r == spec_version_is_current(v@),
{
    match parse_fraction(v) {
        Some((num, den)) => {
            if !crate::weight::dec_nonzero(den.as_slice()) {
                return false;
            }
            let one: Vec<u8> = vec![0x31u8];
            let ten: Vec<u8> = vec![0x31u8, 0x30u8];
            proof {
                assert(dec_val(Seq::<u8>::empty()) == 0);
                assert(one@.drop_last() =~= Seq::<u8>::empty());
                assert(dec_val(one@) == 1);
                assert(ten@.drop_last() =~= one@);
                assert(dec_val(ten@) == 10);
                assert(dec_digits(one@));
                assert(dec_digits(ten@));
            }
            let c = crate::weight::frac_cmp(&num, &den, &one, &ten);
            c == 0
        },
        None => false,
    }
}

/// The lowercase hex digit of a value below sixteen.
pub open spec fn spec_hex_digit(d: nat) -> u8 {
    if d < 10 {
        (0x30 + d) as u8
    } else {
        (0x61 + (d - 10)) as u8
    }
}

/// The value of a hex digit byte, if it is one: `0-9a-f`.
pub open spec fn spec_hex_digit_val(b: u8) -> Option<nat> {
    if 0x30 <= b && b <= 0x39 {
        Some((b - 0x30) as nat)
    } else if 0x61 <= b && b <= 0x66 {
        Some((b - 0x61 + 10) as nat)
    } else {
        None
    }
}

/// The lowercase hex text of a byte string: two digits per byte.
pub open spec fn spec_hex_of(data: Seq<u8>) -> Seq<u8>
    decreases data.len(),
{
    if data.len() == 0 {
        Seq::empty()
    } else {
        seq![
            spec_hex_digit((data[0] / 16) as nat),
            spec_hex_digit((data[0] % 16) as nat),
        ] + spec_hex_of(data.skip(1))
    }
}

/// The bytes a hex text denotes, if it is well-formed: even length,
/// lowercase digits only.
pub open spec fn spec_hex_decode(text: Seq<u8>) -> Option<Seq<u8>>
    decreases text.len(),
{
    if text.len() == 0 {
        Some(Seq::empty())
    } else if text.len() == 1 {
        None
    } else {
        match (spec_hex_digit_val(text[0]), spec_hex_digit_val(text[1])) {
            (Some(h), Some(l)) => match spec_hex_decode(text.skip(2)) {
                Some(rest) => Some(seq![(h * 16 + l) as u8] + rest),
                None => None,
            },
            _ => None,
        }
    }
}

/// Encode bytes as lowercase hex text.
pub fn hex_encode(data: &[u8]) -> (r: Vec<u8>)
    ensures
        r@ == spec_hex_of(data@),
{
    let mut r: Vec<u8> = Vec::new();
    let mut i: usize = 0;
    proof {
        assert(data@.skip(0) =~= data@);
        assert(r@ + spec_hex_of(data@) =~= spec_hex_of(data@));
    }
    while i < data.len()
        invariant
            i <= data@.len(),
            r@ + spec_hex_of(data@.skip(i as int)) == spec_hex_of(data@),
        decreases data@.len() - i,
    {
        let b = data[i];
        let h = b / 16;
        let l = b % 16;
        let hc: u8 = if h < 10 {
            0x30 + h
        } else {
            0x61 + (h - 10)
        };
        let lc: u8 = if l < 10 {
            0x30 + l
        } else {
            0x61 + (l - 10)
        };
        let ghost before = r@;
        r.push(hc);
        r.push(lc);
        proof {
            let rest = data@.skip(i as int);
            assert(rest[0] == data@[i as int]);
            assert(hc == spec_hex_digit((rest[0] / 16) as nat));
            assert(lc == spec_hex_digit((rest[0] % 16) as nat));
            assert(spec_hex_of(rest) == seq![hc, lc] + spec_hex_of(rest.skip(1)));
            assert(rest.skip(1) =~= data@.skip(i + 1));
            assert(r@ =~= before + seq![hc, lc]);
            assert(r@ + spec_hex_of(data@.skip(i + 1)) =~= before + spec_hex_of(rest));
        }
        i = i + 1;
    }
    proof {
        assert(data@.skip(i as int) =~= Seq::<u8>::empty());
        assert(spec_hex_of(data@.skip(i as int)) =~= Seq::<u8>::empty());
        assert(r@ =~= r@ + spec_hex_of(data@.skip(i as int)));
    }
    r
}

/// Decode lowercase hex text into bytes; absent on odd length or a
/// byte outside `0-9a-f`.
pub fn hex_decode(text: &[u8]) -> (r: Option<Vec<u8>>)
    ensures
        match r {
            Some(v) => spec_hex_decode(text@) == Some(v@),
            None => spec_hex_decode(text@) is None,
        },
{
    if text.len() % 2 != 0 {
        proof {
            lemma_hex_decode_odd(text@);
        }
        return None;
    }
    let mut r: Vec<u8> = Vec::new();
    let mut i: usize = 0;
    proof {
        assert(text@.skip(0) =~= text@);
    }
    while i < text.len()
        invariant
            i <= text@.len(),
            i % 2 == 0,
            text@.len() % 2 == 0,
            forall|rest: Seq<u8>|
                spec_hex_decode(text@.skip(i as int)) == Some::<Seq<u8>>(rest)
                    ==> spec_hex_decode(text@) == Some(r@ + rest),
            spec_hex_decode(text@.skip(i as int)) is None ==> spec_hex_decode(text@) is None,
        decreases text@.len() - i,
    {
        let b0 = text[i];
        let b1 = text[i + 1];
        let h: u8 = if 0x30 <= b0 && b0 <= 0x39 {
            b0 - 0x30
        } else if 0x61 <= b0 && b0 <= 0x66 {
            b0 - 0x61 + 10
        } else {
            proof {
                assert(text@.skip(i as int)[0] == b0);
                assert(spec_hex_digit_val(b0) is None);
                assert(spec_hex_decode(text@.skip(i as int)) is None);
            }
            return None;
        };
        let l: u8 = if 0x30 <= b1 && b1 <= 0x39 {
            b1 - 0x30
        } else if 0x61 <= b1 && b1 <= 0x66 {
            b1 - 0x61 + 10
        } else {
            proof {
                assert(text@.skip(i as int)[1] == b1);
                assert(spec_hex_digit_val(b1) is None);
                assert(spec_hex_decode(text@.skip(i as int)) is None);
            }
            return None;
        };
        let ghost before = r@;
        r.push(h * 16 + l);
        proof {
            let rest = text@.skip(i as int);
            assert(rest[0] == b0 && rest[1] == b1);
            assert(spec_hex_digit_val(b0) == Some((h as nat)));
            assert(spec_hex_digit_val(b1) == Some((l as nat)));
            assert(rest.skip(2) =~= text@.skip(i + 2));
            assert(r@ =~= before + seq![(h * 16 + l) as u8]);
            assert forall|tail: Seq<u8>|
                spec_hex_decode(text@.skip(i + 2)) == Some::<Seq<u8>>(tail) implies spec_hex_decode(
                text@,
            ) == Some(r@ + tail) by {
                assert(spec_hex_decode(rest) == Some(seq![(h * 16 + l) as u8] + tail));
                assert(before + (seq![(h * 16 + l) as u8] + tail) =~= r@ + tail);
            }
            if spec_hex_decode(text@.skip(i + 2)) is None {
                assert(spec_hex_decode(rest) is None);
            }
        }
        i = i + 2;
    }
    proof {
        assert(text@.skip(i as int) =~= Seq::<u8>::empty());
        assert(spec_hex_decode(text@.skip(i as int)) == Some(Seq::<u8>::empty()));
        assert(r@ + Seq::<u8>::empty() =~= r@);
    }
    Some(r)
}

proof fn lemma_hex_decode_odd(text: Seq<u8>)
    requires
        text.len() % 2 == 1,
    ensures
        spec_hex_decode(text) is None,
    decreases text.len(),
{
    if text.len() > 1 {
        lemma_hex_decode_odd(text.skip(2));
    }
}

/// Hex round trip: decoding an encoding returns the original bytes.
pub proof fn lemma_hex_round_trip(data: Seq<u8>)
    ensures
        spec_hex_decode(spec_hex_of(data)) == Some(data),
    decreases data.len(),
{
    if data.len() == 0 {
        assert(spec_hex_of(data) =~= Seq::<u8>::empty());
    } else {
        lemma_hex_round_trip(data.skip(1));
        let b = data[0];
        let hc = spec_hex_digit((b / 16) as nat);
        let lc = spec_hex_digit((b % 16) as nat);
        let e = spec_hex_of(data);
        assert(e == seq![hc, lc] + spec_hex_of(data.skip(1)));
        assert(e[0] == hc && e[1] == lc);
        assert(spec_hex_digit_val(hc) == Some((b / 16) as nat));
        assert(spec_hex_digit_val(lc) == Some((b % 16) as nat));
        assert(e.skip(2) =~= spec_hex_of(data.skip(1)));
        assert((b / 16) * 16 + (b % 16) == b);
        assert(seq![b] + data.skip(1) =~= data);
    }
}

} // verus!
