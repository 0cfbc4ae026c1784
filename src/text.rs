use vstd::prelude::*;

verus! {

/// The path `name` resolved against the directory `dir`: an absolute `name`
/// stands alone, a relative one is appended with one separator between.
pub open spec fn path_join(dir: Seq<char>, name: Seq<char>) -> Seq<char> {
    if name.len() > 0 && name[0] == '/' {
        name
    } else if dir.len() == 0 || dir.last() == '/' {
        dir + name
    } else {
        dir + seq!['/'] + name
    }
}

/// Joins `name` onto the directory `dir` as a filesystem path does.
pub fn join_path(dir: &str, name: &str) -> (r: String)
    ensures
        r@ == path_join(dir@, name@),
{
    let name_len = name.unicode_len();
    if name_len > 0 && name.get_char(0) == '/' {
        return String::from_str(name);
    }
    let dir_len = dir.unicode_len();
    let mut r = String::from_str(dir);
    if dir_len > 0 && dir.get_char(dir_len - 1) != '/' {
        r.append("/");
        proof {
            reveal_strlit("/");
        }
    }
    r.append(name);
    r
}


/// Value of the digit `c` in base `radix` (8 or 10), if it is one.
pub open spec fn digit_value(c: char, radix: u32) -> Option<int> {
    if ('0' as u32) <= (c as u32) && (c as u32) < ('0' as u32) + radix {
        Some((c as u32) - ('0' as u32))
    } else {
        None
    }
}

/// Every character of `s` is a digit in base `radix`.
pub open spec fn all_digits(s: Seq<char>, radix: u32) -> bool {
    forall|i: int| 0 <= i < s.len() ==> (#[trigger] digit_value(s[i], radix)) is Some
}

/// The number that the digits of `s` write in base `radix`.
pub open spec fn digits_value(s: Seq<char>, radix: u32) -> int
    decreases s.len(),
{
    if s.len() == 0 {
        0
    } else {
        digits_value(s.drop_last(), radix) * radix + digit_value(s.last(), radix)->Some_0
    }
}

/// An unsigned number written in base `radix` with an optional leading `+`,
/// at most `max`; what `from_str_radix` of an unsigned type accepts.
pub open spec fn spec_parse_unsigned(s: Seq<char>, radix: u32, max: u64) -> Option<u64> {
    let body = if s.len() > 0 && s[0] == '+' { s.drop_first() } else { s };
    if body.len() > 0 && all_digits(body, radix) && digits_value(body, radix) <= max {
        Some(digits_value(body, radix) as u64)
    } else {
        None
    }
}

proof fn lemma_digits_value_grows(s: Seq<char>, radix: u32, k: int)
    requires
        0 <= k <= s.len(),
        all_digits(s, radix),
        1 <= radix,
    ensures
        0 <= digits_value(s.subrange(0, k), radix) <= digits_value(s, radix),
    decreases s.len(),
{
    if s.len() == 0 {
        assert(s.subrange(0, k) =~= s);
    } else {
        let d = s.drop_last();
        assert(all_digits(d, radix)) by {
            assert forall|i: int| 0 <= i < d.len() implies (#[trigger] digit_value(d[i], radix)) is Some by {
                assert(d[i] == s[i]);
            }
        }
        assert(digit_value(s[s.len() - 1], radix) is Some);
        let v = digits_value(d, radix);
        let dig = digit_value(s.last(), radix)->Some_0;
        assert(dig >= 0);
        lemma_digits_value_grows(d, radix, 0);
        assert(d.subrange(0, 0) =~= Seq::<char>::empty());
        assert(v >= 0);
        assert(v * radix >= v) by (nonlinear_arith)
            requires
                v >= 0,
                radix >= 1,
        ;
        assert(digits_value(s, radix) == v * radix + dig);
        if k == s.len() {
            assert(s.subrange(0, k) =~= s);
        } else {
            assert(s.subrange(0, k) =~= d.subrange(0, k));
            lemma_digits_value_grows(d, radix, k);
        }
    }
}

/// Reads an unsigned number in base `radix` (8 or 10), optionally preceded
/// by `+`, that does not exceed `max`.
pub fn parse_unsigned(s: &str, radix: u32, max: u64) -> (r: Option<u64>)
    requires
        radix == 8 || radix == 10,
    ensures
        r == spec_parse_unsigned(s@, radix, max),
        r is Some ==> r->Some_0 <= max,
{
    let n = s.unicode_len();
    let mut i: usize = 0;
    if n > 0 && s.get_char(0) == '+' {
        i = 1;
    }
    let ghost start = i as int;
    let ghost body = if s@.len() > 0 && s@[0] == '+' { s@.drop_first() } else { s@ };
    assert(body =~= s@.subrange(start, n as int));
    if i == n {
        return None;
    }
    let mut acc: u64 = 0;
    while i < n
        invariant
            0 <= start <= 1,
            start <= i <= n,
            n == s@.len(),
            body == s@.subrange(start, n as int),
            body == (if s@.len() > 0 && s@[0] == '+' { s@.drop_first() } else { s@ }),
            radix == 8 || radix == 10,
            all_digits(s@.subrange(start, i as int), radix),
            acc == digits_value(s@.subrange(start, i as int), radix),
            acc <= max,
        decreases n - i,
    {
        let c = s.get_char(i);
        let ghost pre = s@.subrange(start, i as int);
        let ghost next = s@.subrange(start, i as int + 1);
        assert(next.drop_last() =~= pre);
        assert(next.last() == c);
        if (c as u32) < ('0' as u32) || (c as u32) >= ('0' as u32) + radix {
            assert(!all_digits(body, radix)) by {
                assert(body[i - start] == c);
                assert(digit_value(c, radix) is None);
                assert(digit_value(body[i - start], radix) is None);
            }
            assert(spec_parse_unsigned(s@, radix, max) is None);
            return None;
        }
        let d = ((c as u32) - ('0' as u32)) as u64;
        assert(all_digits(next, radix)) by {
            assert forall|j: int| 0 <= j < next.len() implies (#[trigger] digit_value(next[j], radix)) is Some by {
                if j < pre.len() {
                    assert(next[j] == pre[j]);
                }
            }
        }
        let r64 = radix as u64;
        if d > max || acc > (max - d) / r64 {
            proof {
                let ai = acc as int;
                let ri = r64 as int;
                let di = d as int;
                let mi = max as int;
                if di <= mi {
                    let q = (mi - di) / ri;
                    assert(ai * ri + di > mi) by (nonlinear_arith)
                        requires
                            ai > q,
                            q == (mi - di) / ri,
                            ri >= 8,
                            di <= mi,
                    ;
                } else {
                    assert(ai * ri >= 0) by (nonlinear_arith)
                        requires
                            ai >= 0,
                            ri >= 8,
                    ;
                }
                assert(digits_value(next, radix) == ai * ri + di);
                if all_digits(body, radix) {
                    lemma_digits_value_grows(body, radix, i + 1 - start);
                    assert(body.subrange(0, i + 1 - start) =~= next);
                    assert(digits_value(body, radix) > max);
                }
                assert(spec_parse_unsigned(s@, radix, max) is None);
            }
            return None;
        }
        proof {
            let ai = acc as int;
            let ri = r64 as int;
            let di = d as int;
            let mi = max as int;
            let q = (mi - di) / ri;
            assert(ai * ri + di <= mi) by (nonlinear_arith)
                requires
                    ai <= q,
                    q == (mi - di) / ri,
                    ri >= 8,
                    di <= mi,
            ;
        }
        acc = acc * r64 + d;
        i = i + 1;
    }
    assert(s@.subrange(start, n as int) =~= body);
    Some(acc)
}


/// Unicode white space, as `char::is_whitespace` and `str::trim` know it.
pub open spec fn is_space(c: char) -> bool {
    let u = c as u32;
    (0x9 <= u <= 0xd) || u == 0x20 || u == 0x85 || u == 0xa0 || u == 0x1680 || (0x2000 <= u
        <= 0x200a) || u == 0x2028 || u == 0x2029 || u == 0x202f || u == 0x205f || u == 0x3000
}

fn char_is_space(c: char) -> (r: bool)
    ensures
        r == is_space(c),
{
    let u = c as u32;
    (0x9 <= u && u <= 0xd) || u == 0x20 || u == 0x85 || u == 0xa0 || u == 0x1680 || (0x2000 <= u
        && u <= 0x200a) || u == 0x2028 || u == 0x2029 || u == 0x202f || u == 0x205f || u == 0x3000
}

/// `s` without its leading white space.
pub open spec fn trim_front(s: Seq<char>) -> Seq<char>
    decreases s.len(),
{
    if s.len() > 0 && is_space(s[0]) {
        trim_front(s.drop_first())
    } else {
        s
    }
}

/// `s` without its trailing white space.
pub open spec fn trim_back(s: Seq<char>) -> Seq<char>
    decreases s.len(),
{
    if s.len() > 0 && is_space(s.last()) {
        trim_back(s.drop_last())
    } else {
        s
    }
}

/// `s` without white space at either end.
pub open spec fn trim(s: Seq<char>) -> Seq<char> {
    trim_back(trim_front(s))
}

/// Strips white space from both ends of `s`.
pub fn trimmed(s: &str) -> (r: &str)
    ensures
        r@ == trim(s@),
{
    let n = s.unicode_len();
    let mut lo: usize = 0;
    assert(s@.subrange(0, n as int) =~= s@);
    while lo < n && char_is_space(s.get_char(lo))
        invariant
            lo <= n,
            n == s@.len(),
            trim_front(s@) == trim_front(s@.subrange(lo as int, n as int)),
        decreases n - lo,
    {
        assert(s@.subrange(lo as int, n as int).drop_first() =~= s@.subrange(lo + 1, n as int));
        lo = lo + 1;
    }
    assert(trim_front(s@) == s@.subrange(lo as int, n as int)) by {
        if lo < n {
            assert(s@.subrange(lo as int, n as int)[0] == s@[lo as int]);
        }
    }
    let mut hi: usize = n;
    while hi > lo && char_is_space(s.get_char(hi - 1))
        invariant
            lo <= hi <= n,
            n == s@.len(),
            trim(s@) == trim_back(s@.subrange(lo as int, hi as int)),
        decreases hi,
    {
        assert(s@.subrange(lo as int, hi as int).drop_last() =~= s@.subrange(lo as int, hi - 1));
        hi = hi - 1;
    }
    assert(trim(s@) == s@.subrange(lo as int, hi as int)) by {
        if hi > lo {
            assert(s@.subrange(lo as int, hi as int).last() == s@[hi - 1]);
        }
    }
    s.substring_char(lo, hi)
}

/// `c` is `d`, or the upper-case ASCII letter of the lower-case `d`.
pub open spec fn char_lower_eq(c: char, d: char) -> bool {
    c == d || (('A' as u32) <= (c as u32) <= ('Z' as u32) && (c as u32) + 32 == (d as u32))
}

/// `s` written in ASCII lower case is `name`, for a `name` without upper-case
/// letters.
pub open spec fn lower_eq(s: Seq<char>, name: Seq<char>) -> bool {
    s.len() == name.len() && forall|i: int| 0 <= i < s.len() ==> #[trigger] char_lower_eq(s[i], name[i])
}

/// Compares `s` with the lower-case `name`, ignoring ASCII case in `s`.
pub fn eq_lower(s: &str, name: &str) -> (r: bool)
    ensures
        r == lower_eq(s@, name@),
{
    let n = s.unicode_len();
    if n != name.unicode_len() {
        return false;
    }
    let mut i: usize = 0;
    while i < n
        invariant
            i <= n,
            n == s@.len(),
            n == name@.len(),
            forall|j: int| 0 <= j < i ==> #[trigger] char_lower_eq(s@[j], name@[j]),
        decreases n - i,
    {
        let c = s.get_char(i);
        let d = name.get_char(i);
        let cu = c as u32;
        if !(c == d || ('A' as u32 <= cu && cu <= 'Z' as u32 && cu + 32 == d as u32)) {
            assert(!char_lower_eq(s@[i as int], name@[i as int]));
            return false;
        }
        i = i + 1;
    }
    true
}

/// The pieces of `s` between commas, in order; an empty `s` is one empty
/// piece.
pub open spec fn split_commas(s: Seq<char>) -> Seq<Seq<char>>
    decreases s.len(),
{
    if s.len() == 0 {
        seq![Seq::<char>::empty()]
    } else {
        let p = split_commas(s.drop_last());
        if s.last() == ',' {
            p.push(Seq::<char>::empty())
        } else {
            p.update(p.len() - 1, p.last().push(s.last()))
        }
    }
}

proof fn lemma_split_commas_len(s: Seq<char>)
    ensures
        split_commas(s).len() >= 1,
    decreases s.len(),
{
    if s.len() > 0 {
        lemma_split_commas_len(s.drop_last());
    }
}

/// Splits `s` at every comma.
pub fn split_at_commas(s: &str) -> (r: Vec<&str>)
    ensures
        r@.map_values(|p: &str| p@) == split_commas(s@),
{
    let n = s.unicode_len();
    let mut parts: Vec<&str> = Vec::new();
    let mut start: usize = 0;
    let mut i: usize = 0;
    assert(s@.subrange(0, 0) =~= Seq::<char>::empty());
    assert(parts@.map_values(|p: &str| p@).push(s@.subrange(0, 0)) =~= seq![Seq::<char>::empty()]);
    while i < n
        invariant
            start <= i <= n,
            n == s@.len(),
            split_commas(s@.subrange(0, i as int)) == parts@.map_values(|p: &str| p@).push(
                s@.subrange(start as int, i as int),
            ),
        decreases n - i,
    {
        let ghost pre = s@.subrange(0, i as int);
        let ghost next = s@.subrange(0, i + 1);
        assert(next.drop_last() =~= pre);
        assert(next.last() == s@[i as int]);
        proof {
            lemma_split_commas_len(pre);
        }
        if s.get_char(i) == ',' {
            let ghost old_parts = parts@;
            let ghost old_start = start;
            parts.push(s.substring_char(start, i));
            start = i + 1;
            assert(parts@.map_values(|p: &str| p@) =~= old_parts.map_values(|p: &str| p@).push(
                s@.subrange(old_start as int, i as int),
            ));
            assert(s@.subrange(start as int, i + 1) =~= Seq::<char>::empty());
            assert(split_commas(next) =~= parts@.map_values(|p: &str| p@).push(
                s@.subrange(start as int, i + 1),
            ));
        } else {
            assert(s@.subrange(start as int, i + 1) =~= s@.subrange(start as int, i as int).push(
                s@[i as int],
            ));
            assert(split_commas(next) =~= parts@.map_values(|p: &str| p@).push(
                s@.subrange(start as int, i + 1),
            ));
        }
        i = i + 1;
    }
    let ghost old_parts = parts@;
    parts.push(s.substring_char(start, n));
    assert(s@.subrange(0, n as int) =~= s@);
    assert(parts@.map_values(|p: &str| p@) =~= old_parts.map_values(|p: &str| p@).push(
        s@.subrange(start as int, n as int),
    ));
    parts
}

/// Position of the first `c` in `s`, if there is one.
pub fn find_char(s: &str, c: char) -> (r: Option<usize>)
    ensures
        match r {
            Some(i) => i < s@.len() && s@[i as int] == c && forall|j: int| 0 <= j < i ==> s@[j] != c,
            None => forall|j: int| 0 <= j < s@.len() ==> s@[j] != c,
        },
{
    let n = s.unicode_len();
    let mut i: usize = 0;
    while i < n
        invariant
            i <= n,
            n == s@.len(),
            forall|j: int| 0 <= j < i ==> s@[j] != c,
        decreases n - i,
    {
        if s.get_char(i) == c {
            return Some(i);
        }
        i = i + 1;
    }
    None
}


/// `c` occurs in `s`.
pub open spec fn has_char(s: Seq<char>, c: char) -> bool {
    exists|i: int| 0 <= i < s.len() && s[i] == c
}

/// Position of the first `c` in a `s` that holds one.
pub open spec fn first_index(s: Seq<char>, c: char) -> int {
    choose|i: int| 0 <= i < s.len() && s[i] == c && forall|j: int| 0 <= j < i ==> s[j] != c
}

/// The part of `s` before its first `c`.
pub open spec fn before_first(s: Seq<char>, c: char) -> Seq<char> {
    s.subrange(0, first_index(s, c))
}

/// The part of `s` after its first `c`.
pub open spec fn after_first(s: Seq<char>, c: char) -> Seq<char> {
    s.subrange(first_index(s, c) + 1, s.len() as int)
}

/// A first occurrence found by a scan is the one that `first_index` names.
pub proof fn lemma_first_index(s: Seq<char>, c: char, i: int)
    requires
        0 <= i < s.len(),
        s[i] == c,
        forall|j: int| 0 <= j < i ==> s[j] != c,
    ensures
        has_char(s, c),
        first_index(s, c) == i,
{
    assert(has_char(s, c));
    let k = first_index(s, c);
    assert(0 <= k < s.len() && s[k] == c && forall|j: int| 0 <= j < k ==> s[j] != c);
    if k < i {
        assert(s[k] != c);
    }
    if k > i {
        assert(s[i] != c);
    }
}

/// Splits `s` at its first `c` into the parts before and after it.
pub fn split_once(s: &str, c: char) -> (r: Option<(&str, &str)>)
    ensures
        match r {
            Some((a, b)) => has_char(s@, c) && a@ == before_first(s@, c) && b@ == after_first(s@, c),
            None => !has_char(s@, c),
        },
{
    match find_char(s, c) {
        Some(i) => {
            proof {
                lemma_first_index(s@, c, i as int);
            }
            let n = s.unicode_len();
            Some((s.substring_char(0, i), s.substring_char(i + 1, n)))
        },
        None => None,
    }
}

} // verus!
