use vstd::prelude::*;

verus! {

/// The views of a sequence of byte vectors.
pub open spec fn views_of(vs: Seq<Vec<u8>>) -> Seq<Seq<u8>> {
    vs.map_values(|v: Vec<u8>| v@)
}

/// ASCII whitespace, as trimming understands it.
pub open spec fn is_ws(b: u8) -> bool {
    b == 0x20 || b == 0x09 || b == 0x0a || b == 0x0d || b == 0x0b || b == 0x0c
}

/// `p` is a prefix of `s`.
pub open spec fn is_prefix(s: Seq<u8>, p: Seq<u8>) -> bool {
    p.len() <= s.len() && s.take(p.len() as int) == p
}

/// `p` is a suffix of `s`.
pub open spec fn is_suffix(s: Seq<u8>, p: Seq<u8>) -> bool {
    p.len() <= s.len() && s.skip(s.len() - p.len()) == p
}

/// Byte-for-byte equality of two slices.
pub fn bytes_eq(a: &[u8], b: &[u8]) -> (r: bool)
    ensures
        r == (a@ == b@),
{
    if a.len() != b.len() {
        proof {
            assert(a@.len() != b@.len());
        }
        return false;
    }
    let mut i: usize = 0;
    while i < a.len()
        invariant
            i <= a@.len() == b@.len(),
            forall|j: int| 0 <= j < i ==> a@[j] == b@[j],
        decreases a@.len() - i,
    {
        if a[i] != b[i] {
            return false;
        }
        i = i + 1;
    }
    proof {
        assert(a@ =~= b@);
    }
    true
}

/// Does `s` start with `p`?
pub fn starts_with(s: &[u8], p: &[u8]) -> (r: bool)
    ensures
        r == is_prefix(s@, p@),
{
    if p.len() > s.len() {
        return false;
    }
    let mut i: usize = 0;
    while i < p.len()
        invariant
            p@.len() <= s@.len(),
            i <= p@.len(),
            forall|j: int| 0 <= j < i ==> s@[j] == p@[j],
        decreases p@.len() - i,
    {
        if s[i] != p[i] {
            proof {
                assert(s@.take(p@.len() as int)[i as int] == s@[i as int]);
            }
            return false;
        }
        i = i + 1;
    }
    proof {
        assert(s@.take(p@.len() as int) =~= p@);
    }
    true
}

/// Does `s` end with `p`?
pub fn ends_with(s: &[u8], p: &[u8]) -> (r: bool)
    ensures
        r == is_suffix(s@, p@),
{
    if p.len() > s.len() {
        return false;
    }
    let off: usize = s.len() - p.len();
    let mut i: usize = 0;
    while i < p.len()
        invariant
            s@.len() <= usize::MAX,
            p@.len() <= s@.len(),
            off == s@.len() - p@.len(),
            i <= p@.len(),
            forall|j: int| 0 <= j < i ==> s@[off + j] == p@[j],
        decreases p@.len() - i,
    {
        if s[off + i] != p[i] {
            proof {
                assert(s@.skip(off as int)[i as int] == s@[off + i]);
            }
            return false;
        }
        i = i + 1;
    }
    proof {
        assert(s@.skip(off as int) =~= p@);
    }
    true
}

/// Copy the byte range `[a, b)` of `s`.
pub fn copy_range(s: &[u8], a: usize, b: usize) -> (r: Vec<u8>)
    requires
        a <= b <= s@.len(),
    ensures
        r@ == s@.subrange(a as int, b as int),
{
    let mut r: Vec<u8> = Vec::new();
    let mut i: usize = a;
    while i < b
        invariant
            a <= i <= b <= s@.len(),
            r@ == s@.subrange(a as int, i as int),
        decreases b - i,
    {
        r.push(s[i]);
        proof {
            assert(s@.subrange(a as int, i + 1) =~= s@.subrange(a as int, i as int).push(
                s@[i as int],
            ));
        }
        i = i + 1;
    }
    r
}

/// `s` with leading ASCII whitespace removed.
pub open spec fn spec_trim_start(s: Seq<u8>) -> Seq<u8>
    decreases s.len(),
{
    if s.len() > 0 && is_ws(s[0]) {
        spec_trim_start(s.skip(1))
    } else {
        s
    }
}

/// `s` with trailing ASCII whitespace removed.
pub open spec fn spec_trim_end(s: Seq<u8>) -> Seq<u8>
    decreases s.len(),
{
    if s.len() > 0 && is_ws(s.last()) {
        spec_trim_end(s.drop_last())
    } else {
        s
    }
}

/// `s` with leading and trailing ASCII whitespace removed.
pub open spec fn spec_trim(s: Seq<u8>) -> Seq<u8> {
    spec_trim_end(spec_trim_start(s))
}

proof fn lemma_trim_start_skip(s: Seq<u8>, i: int)
    requires
        0 <= i <= s.len(),
        forall|j: int| 0 <= j < i ==> is_ws(s[j]),
    ensures
        spec_trim_start(s) == spec_trim_start(s.skip(i)),
    decreases i,
{
    if i > 0 {
        assert(is_ws(s[0]));
        assert(s.skip(1).skip(i - 1) =~= s.skip(i));
        lemma_trim_start_skip(s.skip(1), i - 1);
    } else {
        assert(s.skip(0) =~= s);
    }
}

proof fn lemma_trim_end_take(s: Seq<u8>, i: int)
    requires
        0 <= i <= s.len(),
        forall|j: int| i <= j < s.len() ==> is_ws(s[j]),
    ensures
        spec_trim_end(s) == spec_trim_end(s.take(i)),
    decreases s.len() - i,
{
    if i < s.len() {
        assert(is_ws(s.last()));
        assert(s.drop_last() =~= s.take(s.len() - 1));
        lemma_trim_end_take(s.drop_last(), i);
        assert(s.drop_last().take(i) =~= s.take(i));
    } else {
        assert(s.take(i) =~= s);
    }
}

/// ASCII whitespace test, executable form.
pub fn is_ws_byte(b: u8) -> (r: bool)
    ensures
        r == is_ws(b),
{
    b == 0x20 || b == 0x09 || b == 0x0a || b == 0x0d || b == 0x0b || b == 0x0c
}

/// Remove leading and trailing ASCII whitespace.
pub fn trim(s: &[u8]) -> (r: Vec<u8>)
    ensures
        r@ == spec_trim(s@),
{
    let n = s.len();
    let mut a: usize = 0;
    while a < n && is_ws_byte(s[a])
        invariant
            a <= n == s@.len(),
            forall|j: int| 0 <= j < a ==> is_ws(s@[j]),
        decreases n - a,
    {
        a = a + 1;
    }
    proof {
        lemma_trim_start_skip(s@, a as int);
        if a < n {
            assert(s@.skip(a as int)[0] == s@[a as int]);
            assert(!is_ws(s@.skip(a as int)[0]));
        }
        assert(spec_trim_start(s@) == s@.skip(a as int));
    }
    let mut b: usize = n;
    while b > a && is_ws_byte(s[b - 1])
        invariant
            a <= b <= n == s@.len(),
            forall|j: int| b <= j < n ==> is_ws(s@[j]),
        decreases b,
    {
        b = b - 1;
    }
    proof {
        let t = s@.skip(a as int);
        assert(forall|j: int|
            b - a <= j < t.len() ==> t[j] == s@[j + a] && is_ws(#[trigger] t[j]));
        lemma_trim_end_take(t, b - a);
        if b > a {
            assert(t.take(b - a).last() == s@[b - 1]);
            assert(!is_ws(t.take(b - a).last()));
        }
        assert(spec_trim_end(t) == t.take(b - a));
        assert(t.take(b - a) =~= s@.subrange(a as int, b as int));
    }
    copy_range(s, a, b)
}

/// Position of the first `b` in `s`, if any.
pub open spec fn spec_find_byte(s: Seq<u8>, b: u8) -> Option<int>
    decreases s.len(),
{
    if s.len() == 0 {
        None
    } else if s[0] == b {
        Some(0)
    } else {
        match spec_find_byte(s.skip(1), b) {
            Some(i) => Some(i + 1),
            None => None,
        }
    }
}

pub proof fn lemma_find_byte_characterizes(s: Seq<u8>, b: u8)
    ensures
        match spec_find_byte(s, b) {
            Some(i) => 0 <= i < s.len() && s[i] == b && (forall|j: int|
                0 <= j < i ==> s[j] != b),
            None => forall|j: int| 0 <= j < s.len() ==> s[j] != b,
        },
    decreases s.len(),
{
    if s.len() == 0 {
    } else if s[0] == b {
    } else {
        lemma_find_byte_characterizes(s.skip(1), b);
        let t = s.skip(1);
        match spec_find_byte(t, b) {
            Some(i2) => {
                assert(t[i2] == s[i2 + 1]);
                assert forall|j: int| 0 <= j < i2 + 1 implies s[j] != b by {
                    if j >= 1 {
                        assert(t[j - 1] == s[j]);
                        assert(t[j - 1] != b);
                    }
                }
            },
            None => {
                assert forall|j: int| 0 <= j < s.len() implies s[j] != b by {
                    if j >= 1 {
                        assert(t[j - 1] == s[j]);
                        assert(t[j - 1] != b);
                    }
                }
            },
        }
    }
}

/// Find the first occurrence of `b` in `s`.
pub fn find_byte(s: &[u8], b: u8) -> (r: Option<usize>)
    ensures
        match r {
            Some(i) => spec_find_byte(s@, b) == Some(i as int),
            None => spec_find_byte(s@, b) is None,
        },
{
    let mut i: usize = 0;
    while i < s.len()
        invariant
            i <= s@.len(),
            forall|j: int| 0 <= j < i ==> s@[j] != b,
        decreases s@.len() - i,
    {
        if s[i] == b {
            proof {
                lemma_find_byte_characterizes(s@, b);
                match spec_find_byte(s@, b) {
                    Some(f) => {
                        if f < i {
                            assert(s@[f] != b);
                        } else if f > i {
                            assert(s@[i as int] != b);
                        }
                    },
                    None => {
                        assert(s@[i as int] != b);
                    },
                }
            }
            return Some(i);
        }
        i = i + 1;
    }
    proof {
        lemma_find_byte_characterizes(s@, b);
        match spec_find_byte(s@, b) {
            Some(f) => {
                assert(s@[f] != b);
            },
            None => {},
        }
    }
    None
}

/// A line, with one trailing carriage return removed.
pub open spec fn spec_strip_cr(s: Seq<u8>) -> Seq<u8> {
    if s.len() > 0 && s.last() == 0x0du8 {
        s.drop_last()
    } else {
        s
    }
}

/// The lines of `s`: split on newline bytes, one trailing carriage
/// return removed from each line, and no final empty line when the
/// text ends with a newline.
pub open spec fn spec_lines(s: Seq<u8>) -> Seq<Seq<u8>>
    decreases s.len(),
{
    if s.len() == 0 {
        Seq::empty()
    } else {
        match spec_find_byte(s, 0x0au8) {
            Some(i) => if 0 <= i < s.len() {
                seq![spec_strip_cr(s.take(i))] + spec_lines(s.skip(i + 1))
            } else {
                seq![spec_strip_cr(s)]
            },
            None => seq![spec_strip_cr(s)],
        }
    }
}

/// Split `s` into lines.
pub fn split_lines(s: &[u8]) -> (r: Vec<Vec<u8>>)
    ensures
        views_of(r@) == spec_lines(s@),
{
    let mut r: Vec<Vec<u8>> = Vec::new();
    let mut pos: usize = 0;
    proof {
        assert(s@.skip(0) =~= s@);
        assert(views_of(r@) =~= Seq::<Seq<u8>>::empty());
        assert(views_of(r@) + spec_lines(s@.skip(0)) =~= spec_lines(s@));
    }
    while pos < s.len()
        invariant
            pos <= s@.len(),
            views_of(r@) + spec_lines(s@.skip(pos as int)) == spec_lines(s@),
        decreases s@.len() - pos,
    {
        let ghost rest = s@.skip(pos as int);
        let mut i: usize = pos;
        while i < s.len() && s[i] != 0x0a
            invariant
                pos <= i <= s@.len(),
                forall|j: int| pos <= j < i ==> s@[j] != 0x0au8,
            decreases s@.len() - i,
        {
            i = i + 1;
        }
        proof {
            lemma_find_byte_characterizes(rest, 0x0au8);
            assert(forall|j: int|
                0 <= j < rest.len() ==> rest[j] == #[trigger] s@[pos + j]);
        }
        let line_end: usize = if i < s.len() {
            i
        } else {
            s.len()
        };
        proof {
            if i < s.len() {
                assert(rest[i - pos] == 0x0au8);
                match spec_find_byte(rest, 0x0au8) {
                    Some(f) => {
                        if f < i - pos {
                            assert(rest[f] != 0x0au8);
                            assert(s@[pos + f] != 0x0au8);
                        } else if f > i - pos {
                            assert(rest[i - pos] != 0x0au8);
                        }
                    },
                    None => {
                        assert(rest[i - pos] != 0x0au8);
                    },
                }
                assert(spec_find_byte(rest, 0x0au8) == Some(i - pos as int));
            } else {
                match spec_find_byte(rest, 0x0au8) {
                    Some(f) => {
                        assert(rest[f] == 0x0au8);
                        assert(s@[pos + f] == 0x0au8);
                        assert(false);
                    },
                    None => {},
                }
            }
        }
        let stripped_end: usize = if line_end > pos && s[line_end - 1] == 0x0d {
            line_end - 1
        } else {
            line_end
        };
        let line = copy_range(s, pos, stripped_end);
        proof {
            let raw = rest.take(line_end - pos as int);
            assert(raw =~= s@.subrange(pos as int, line_end as int));
            if line_end > pos && s@[line_end - 1] == 0x0du8 {
                assert(raw.last() == 0x0du8);
                assert(raw.drop_last() =~= s@.subrange(pos as int, stripped_end as int));
                assert(spec_strip_cr(raw) == line@);
            } else {
                if raw.len() > 0 {
                    assert(raw.last() == s@[line_end - 1]);
                }
                assert(spec_strip_cr(raw) == line@);
            }
            if i < s.len() {
                assert(spec_lines(rest) == seq![spec_strip_cr(raw)] + spec_lines(
                    rest.skip(i - pos + 1),
                ));
                assert(rest.skip(i - pos + 1) =~= s@.skip(i + 1));
            } else {
                assert(rest.take(line_end - pos as int) =~= rest);
                assert(spec_lines(rest) == seq![spec_strip_cr(rest)]);
            }
        }
        r.push(line);
        proof {
            assert(views_of(r@) =~= views_of(r@.drop_last()) + seq![line@]);
        }
        if i < s.len() {
            pos = i + 1;
        } else {
            pos = s.len();
            proof {
                assert(spec_lines(s@.skip(pos as int)) =~= Seq::<Seq<u8>>::empty());
            }
        }
        proof {
            assert(views_of(r@) + spec_lines(s@.skip(pos as int)) =~= spec_lines(s@));
        }
    }
    proof {
        assert(spec_lines(s@.skip(pos as int)) =~= Seq::<Seq<u8>>::empty());
        assert(views_of(r@) =~= spec_lines(s@));
    }
    r
}

/// Copy a list of byte strings.
pub fn copy_lines(v: &Vec<Vec<u8>>) -> (r: Vec<Vec<u8>>)
    ensures
        views_of(r@) == views_of(v@),
        r@.len() == v@.len(),
{
    let mut r: Vec<Vec<u8>> = Vec::new();
    let mut i: usize = 0;
    while i < v.len()
        invariant
            i <= v@.len(),
            r@.len() == i,
            forall|j: int| 0 <= j < i ==> (#[trigger] r@[j])@ == v@[j]@,
        decreases v@.len() - i,
    {
        let line = copy_range(v[i].as_slice(), 0, v[i].len());
        proof {
            assert(line@ =~= v@[i as int]@);
        }
        r.push(line);
        i = i + 1;
    }
    proof {
        assert(views_of(r@) =~= views_of(v@));
    }
    r
}

} // verus!
