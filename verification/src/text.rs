//! Character-sequence primitives used by the request and response code.
use vstd::prelude::*;

verus! {

broadcast use vstd::string::group_string_axioms;

/// The characters of `s`, in order.
pub fn str_chars(s: &str) -> (r: Vec<char>)
    ensures
        r@ == s@,
{
    let mut r: Vec<char> = Vec::new();
    for c in it: s.chars()
        invariant
            it.seq() == s@,
            r@ == it.seq().take(it.index() as int),
    {
        r.push(c);
    }
    assert(r@ =~= s@);
    r
}

/// Appends one character to a `String` (`String::push`).
#[verifier::external_body]
fn string_push(s: &mut String, c: char)
    ensures
        final(s)@ == old(s)@.push(c),
{
    s.push(c);
}

/// The `String` holding the characters of `v`, in order.
pub fn chars_to_string(v: &[char]) -> (r: String)
    ensures
        r@ == v@,
{
    let mut r = String::new();
    let mut i: usize = 0;
    while i < v.len()
        invariant
            i <= v.len(),
            r@ == v@.take(i as int),
        decreases v.len() - i,
    {
        string_push(&mut r, v[i]);
        assert(v@.take(i as int).push(v@[i as int]) =~= v@.take(i + 1));
        i += 1;
    }
    assert(v@.take(v.len() as int) =~= v@);
    r
}


/// `pat` occurs in `s` starting at position `i`.
pub open spec fn occurs_at(s: Seq<char>, pat: Seq<char>, i: int) -> bool {
    0 <= i && i + pat.len() <= s.len() && s.subrange(i, i + pat.len()) == pat
}

/// The first position at or after `i` where `pat` occurs in `s`.
pub open spec fn find_from(s: Seq<char>, pat: Seq<char>, i: int) -> Option<int>
    decreases s.len() + 1 - i,
{
    if i < 0 || i > s.len() || i + pat.len() > s.len() {
        None
    } else if occurs_at(s, pat, i) {
        Some(i)
    } else {
        find_from(s, pat, i + 1)
    }
}

/// The first position where `pat` occurs in `s` (`str::find`).
pub open spec fn find_str(s: Seq<char>, pat: Seq<char>) -> Option<int> {
    find_from(s, pat, 0)
}

/// Whether `pat` occurs anywhere in `s` (`str::contains`).
pub open spec fn contains_str(s: Seq<char>, pat: Seq<char>) -> bool {
    find_str(s, pat) is Some
}

/// Properties of the first occurrence found from `i` on.
pub proof fn lemma_find_from(s: Seq<char>, pat: Seq<char>, i: int)
    requires
        0 <= i,
    ensures
        match find_from(s, pat, i) {
            Some(k) => i <= k && occurs_at(s, pat, k) && forall|j: int|
                i <= j < k ==> !occurs_at(s, pat, j),
            None => forall|j: int| i <= j ==> !occurs_at(s, pat, j),
        },
    decreases s.len() + 1 - i,
{
    if i > s.len() || i + pat.len() > s.len() {
    } else if occurs_at(s, pat, i) {
    } else {
        lemma_find_from(s, pat, i + 1);
    }
}

/// A position with an occurrence and none before it is the first occurrence.
pub proof fn lemma_find_str_is(s: Seq<char>, pat: Seq<char>, k: int)
    requires
        occurs_at(s, pat, k),
        forall|j: int| 0 <= j < k ==> !occurs_at(s, pat, j),
    ensures
        find_str(s, pat) == Some(k),
{
    lemma_find_from(s, pat, 0);
}

/// No occurrence at all means `find_str` gives `None`.
pub proof fn lemma_find_str_none(s: Seq<char>, pat: Seq<char>)
    requires
        forall|j: int| 0 <= j ==> !occurs_at(s, pat, j),
    ensures
        find_str(s, pat) is None,
{
    lemma_find_from(s, pat, 0);
}

/// Whether `pat` occurs in `s` at `i`.
pub fn matches_at(s: &[char], pat: &[char], i: usize) -> (r: bool)
    ensures
        r == occurs_at(s@, pat@, i as int),
{
    if i > s.len() || pat.len() > s.len() - i {
        return false;
    }
    let mut j: usize = 0;
    while j < pat.len()
        invariant
            j <= pat.len(),
            i + pat.len() <= s.len(),
            forall|t: int| 0 <= t < j ==> s@[i + t] == pat@[t],
        decreases pat.len() - j,
    {
        if s[i + j] != pat[j] {
            assert(s@.subrange(i as int, i + pat.len())[j as int] != pat@[j as int]);
            return false;
        }
        j += 1;
    }
    assert(s@.subrange(i as int, i + pat.len()) =~= pat@);
    true
}

/// The first position at or after `start` where `pat` occurs in `s`.
pub fn find_chars_from(s: &[char], pat: &[char], start: usize) -> (r: Option<usize>)
    ensures
        opt_int(r) == find_from(s@, pat@, start as int),
{
    let mut i = start;
    while i <= s.len() && pat.len() <= s.len() - i
        invariant
            start <= i,
            find_from(s@, pat@, start as int) == find_from(s@, pat@, i as int),
        decreases s.len() + 1 - i,
    {
        if matches_at(s, pat, i) {
            return Some(i);
        }
        proof {
            if pat.len() == 0 {
                assert(s@.subrange(i as int, i as int) =~= pat@);
            }
        }
        i += 1;
    }
    None
}

/// An optional position as an integer.
pub open spec fn opt_int(o: Option<usize>) -> Option<int> {
    match o {
        Some(x) => Some(x as int),
        None => None,
    }
}

/// The first position where `pat` occurs in `s`.
pub fn find_chars(s: &[char], pat: &[char]) -> (r: Option<usize>)
    ensures
        opt_int(r) == find_str(s@, pat@),
        r matches Some(k) ==> k + pat@.len() <= s@.len(),
{
    proof {
        lemma_find_from(s@, pat@, 0);
    }
    find_chars_from(s, pat, 0)
}


/// Shifting the search start into a suffix.
pub proof fn lemma_find_from_skip(s: Seq<char>, pat: Seq<char>, pos: int, j: int)
    requires
        0 <= pos <= s.len(),
        0 <= j,
    ensures
        find_from(s, pat, pos + j) == (match find_from(s.skip(pos), pat, j) {
            Some(k) => Some(k + pos),
            None => None::<int>,
        }),
    decreases s.len() + 1 - (pos + j),
{
    let t = s.skip(pos);
    if pos + j > s.len() || pos + j + pat.len() > s.len() {
    } else {
        assert(t.subrange(j, j + pat.len()) =~= s.subrange(pos + j, pos + j + pat.len()));
        if occurs_at(s, pat, pos + j) {
        } else {
            lemma_find_from_skip(s, pat, pos, j + 1);
        }
    }
}

/// The first occurrence of `pat` in the suffix of `s` that starts at `pos`,
/// as a position in `s`.
pub fn find_in_suffix(s: &[char], pat: &[char], pos: usize) -> (r: Option<usize>)
    requires
        pos <= s.len(),
    ensures
        r == (match find_str(s@.skip(pos as int), pat@) {
            Some(k) => Some((k + pos) as usize),
            None => None::<usize>,
        }),
{
    proof {
        lemma_find_from_skip(s@, pat@, pos as int, 0);
        lemma_find_from(s@.skip(pos as int), pat@, 0);
    }
    let r = find_chars_from(s, pat, pos);
    proof {
        match r {
            Some(x) => {
                let k = find_str(s@.skip(pos as int), pat@)->0;
                assert(x == k + pos);
            },
            None => {},
        }
    }
    r
}

/// The pieces of `s` between the occurrences of `pat` (`str::split`), for a
/// non-empty `pat`.
pub open spec fn split_str(s: Seq<char>, pat: Seq<char>) -> Seq<Seq<char>>
    decreases s.len(),
{
    if pat.len() == 0 {
        seq![s]
    } else {
        match find_str(s, pat) {
            Some(i) => if 0 <= i && i + pat.len() <= s.len() {
                seq![s.take(i)] + split_str(s.skip(i + pat.len()), pat)
            } else {
                seq![s]
            },
            None => seq![s],
        }
    }
}

/// The pieces joined with `sep` between them (`[String]::join`).
pub open spec fn join(parts: Seq<Seq<char>>, sep: Seq<char>) -> Seq<char>
    decreases parts.len(),
{
    if parts.len() == 0 {
        Seq::empty()
    } else if parts.len() == 1 {
        parts[0]
    } else {
        parts[0] + sep + join(parts.drop_first(), sep)
    }
}

/// Every occurrence of `pat` in `s` replaced by `rep` (`str::replace`).
pub open spec fn replace_all(s: Seq<char>, pat: Seq<char>, rep: Seq<char>) -> Seq<char> {
    join(split_str(s, pat), rep)
}

/// One step of `split_str` at the first occurrence of `pat`.
pub proof fn lemma_split_step(s: Seq<char>, pat: Seq<char>)
    requires
        pat.len() > 0,
    ensures
        split_str(s, pat).len() >= 1,
        match find_str(s, pat) {
            Some(i) => split_str(s, pat) == seq![s.take(i)] + split_str(s.skip(i + pat.len()), pat)
                && 0 <= i && i + pat.len() <= s.len(),
            None => split_str(s, pat) == seq![s],
        },
{
    lemma_find_from(s, pat, 0);
}

/// Replacing every occurrence of `pat` in `s` by `rep`.
pub fn replace_chars(s: &[char], pat: &[char], rep: &[char]) -> (r: Vec<char>)
    requires
        pat.len() > 0,
    ensures
        r@ == replace_all(s@, pat@, rep@),
{
    let mut out: Vec<char> = Vec::new();
    let mut pos: usize = 0;
    assert(s@.skip(0) =~= s@);
    loop
        invariant
            pos <= s.len(),
            pat.len() > 0,
            replace_all(s@, pat@, rep@) == out@ + replace_all(s@.skip(pos as int), pat@, rep@),
        decreases s.len() - pos,
    {
        let ghost rest = s@.skip(pos as int);
        proof {
            lemma_split_step(rest, pat@);
        }
        match find_in_suffix(s, pat, pos) {
            None => {
                let ghost before = out@;
                let mut j = pos;
                while j < s.len()
                    invariant
                        pos <= j <= s.len(),
                        out@ == before + s@.subrange(pos as int, j as int),
                    decreases s.len() - j,
                {
                    out.push(s[j]);
                    assert(before + s@.subrange(pos as int, j + 1) =~= (before + s@.subrange(pos as int, j as int)).push(s@[j as int]));
                    j += 1;
                }
                assert(rest =~= s@.subrange(pos as int, s.len() as int));
                return out;
            },
            Some(k) => {
                let ghost before = out@;
                let ghost i = (k - pos) as int;
                let mut j = pos;
                while j < k
                    invariant
                        pos <= j <= k,
                        k + pat.len() <= s.len(),
                        out@ == before + s@.subrange(pos as int, j as int),
                    decreases k - j,
                {
                    out.push(s[j]);
                    assert(before + s@.subrange(pos as int, j + 1) =~= (before + s@.subrange(pos as int, j as int)).push(s@[j as int]));
                    j += 1;
                }
                let mut t: usize = 0;
                while t < rep.len()
                    invariant
                        t <= rep.len(),
                        out@ == before + s@.subrange(pos as int, k as int) + rep@.take(t as int),
                    decreases rep.len() - t,
                {
                    out.push(rep[t]);
                    assert(rep@.take(t + 1) =~= rep@.take(t as int).push(rep@[t as int]));
                    t += 1;
                }
                assert(rep@.take(rep.len() as int) =~= rep@);
                let ghost next = s@.skip(k + pat.len());
                assert(rest.skip(i + pat.len()) =~= next);
                assert(rest.take(i) =~= s@.subrange(pos as int, k as int));
                proof {
                    lemma_split_step(next, pat@);
                    let parts = split_str(rest, pat@);
                    assert(parts.drop_first() =~= split_str(next, pat@));
                    assert(replace_all(rest, pat@, rep@) == rest.take(i) + rep@ + replace_all(next, pat@, rep@));
                }
                pos = k + pat.len();
            },
        }
    }
}


/// Unicode `White_Space`, the property that `char::is_whitespace` tests.
pub open spec fn is_ws(c: char) -> bool {
    let v = c as u32;
    (0x09 <= v <= 0x0d) || v == 0x20 || v == 0x85 || v == 0xa0 || v == 0x1680 || (0x2000 <= v
        <= 0x200a) || v == 0x2028 || v == 0x2029 || v == 0x202f || v == 0x205f || v == 0x3000
}

/// Whether `c` is Unicode white space.
pub fn is_whitespace(c: char) -> (r: bool)
    ensures
        r == is_ws(c),
{
    let v = c as u32;
    (0x09 <= v && v <= 0x0d) || v == 0x20 || v == 0x85 || v == 0xa0 || v == 0x1680 || (0x2000 <= v
        && v <= 0x200a) || v == 0x2028 || v == 0x2029 || v == 0x202f || v == 0x205f || v == 0x3000
}

/// The number of leading characters of `s` whose white-space status is `ws`.
pub open spec fn lead_count(s: Seq<char>, ws: bool) -> nat
    decreases s.len(),
{
    if s.len() == 0 {
        0
    } else if is_ws(s[0]) == ws {
        1 + lead_count(s.drop_first(), ws)
    } else {
        0
    }
}

/// The number of trailing white-space characters of `s`.
pub open spec fn trail_ws_count(s: Seq<char>) -> nat
    decreases s.len(),
{
    if s.len() == 0 {
        0
    } else if is_ws(s.last()) {
        1 + trail_ws_count(s.drop_last())
    } else {
        0
    }
}

/// `s` without leading and trailing white space (`str::trim`).
pub open spec fn trim(s: Seq<char>) -> Seq<char> {
    let t = s.skip(lead_count(s, true) as int);
    t.take(t.len() - trail_ws_count(t))
}

/// The next white-space separated token of `s` and what follows it
/// (one step of `str::split_whitespace`).
pub open spec fn next_token(s: Seq<char>) -> Option<(Seq<char>, Seq<char>)> {
    let t = s.skip(lead_count(s, true) as int);
    if t.len() == 0 {
        None
    } else {
        let n = lead_count(t, false) as int;
        Some((t.take(n), t.skip(n)))
    }
}

/// `lead_count` is the length of the longest prefix of the given kind.
pub proof fn lemma_lead_count(s: Seq<char>, ws: bool, k: int)
    requires
        0 <= k <= s.len(),
        forall|j: int| 0 <= j < k ==> is_ws(#[trigger] s[j]) == ws,
        k == s.len() || is_ws(s[k]) != ws,
    ensures
        lead_count(s, ws) == k,
    decreases k,
{
    if k > 0 {
        let t = s.drop_first();
        assert forall|j: int| 0 <= j < k - 1 implies is_ws(#[trigger] t[j]) == ws by {
            assert(t[j] == s[j + 1]);
        }
        lemma_lead_count(t, ws, k - 1);
    }
}

/// `trail_ws_count` is the length of the longest white-space suffix.
pub proof fn lemma_trail_count(s: Seq<char>, k: int)
    requires
        0 <= k <= s.len(),
        forall|j: int| s.len() - k <= j < s.len() ==> is_ws(#[trigger] s[j]),
        k == s.len() || !is_ws(s[s.len() - k - 1]),
    ensures
        trail_ws_count(s) == k,
    decreases k,
{
    if k > 0 {
        let t = s.drop_last();
        assert forall|j: int| t.len() - (k - 1) <= j < t.len() implies is_ws(#[trigger] t[j]) by {
            assert(t[j] == s[j]);
        }
        lemma_trail_count(t, k - 1);
    }
}

/// The length of the longest prefix of `s[from..]` whose white-space status is `ws`.
pub fn lead_len(s: &[char], from: usize, ws: bool) -> (n: usize)
    requires
        from <= s.len(),
    ensures
        from + n <= s.len(),
        n == lead_count(s@.skip(from as int), ws),
{
    let mut i = from;
    while i < s.len() && is_whitespace(s[i]) == ws
        invariant
            from <= i <= s.len(),
            forall|j: int| from <= j < i ==> is_ws(#[trigger] s@[j]) == ws,
        decreases s.len() - i,
    {
        i += 1;
    }
    let ghost t = s@.skip(from as int);
    proof {
        assert forall|j: int| 0 <= j < i - from implies is_ws(#[trigger] t[j]) == ws by {
            assert(t[j] == s@[from + j]);
        }
        lemma_lead_count(t, ws, i - from);
    }
    i - from
}

/// `s` without leading and trailing white space.
pub fn trim_chars(s: &[char]) -> (r: Vec<char>)
    ensures
        r@ == trim(s@),
{
    let a = lead_len(s, 0, true);
    assert(s@.skip(0) =~= s@);
    let mut e = s.len();
    while e > a && is_whitespace(s[e - 1])
        invariant
            a <= e <= s.len(),
            forall|j: int| e <= j < s.len() ==> is_ws(#[trigger] s@[j]),
        decreases e,
    {
        e -= 1;
    }
    let ghost t = s@.skip(a as int);
    proof {
        let k = s.len() - e;
        assert forall|j: int| t.len() - k <= j < t.len() implies is_ws(#[trigger] t[j]) by {
            assert(t[j] == s@[a + j]);
        }
        if k < t.len() {
            assert(t[t.len() - k - 1] == s@[e - 1]);
        }
        lemma_trail_count(t, k);
    }
    let r = copy_range(s, a, e);
    assert(r@ =~= t.take(t.len() - trail_ws_count(t)));
    r
}

/// The characters `s[from..to]`.
pub fn copy_range(s: &[char], from: usize, to: usize) -> (r: Vec<char>)
    requires
        from <= to <= s.len(),
    ensures
        r@ == s@.subrange(from as int, to as int),
{
    let mut r: Vec<char> = Vec::new();
    let mut i = from;
    while i < to
        invariant
            from <= i <= to <= s.len(),
            r@ == s@.subrange(from as int, i as int),
        decreases to - i,
    {
        r.push(s[i]);
        assert(s@.subrange(from as int, i + 1) =~= s@.subrange(from as int, i as int).push(s@[i as int]));
        i += 1;
    }
    r
}

/// The next token of `s[from..]`, as its bounds in `s`.
pub fn next_token_at(s: &[char], from: usize) -> (r: Option<(usize, usize)>)
    requires
        from <= s.len(),
    ensures
        match next_token(s@.skip(from as int)) {
            None => r is None,
            Some((tok, rest)) => r matches Some((a, b)) && from <= a <= b <= s.len()
                && tok == s@.subrange(a as int, b as int) && rest == s@.skip(b as int),
        },
{
    let n = lead_len(s, from, true);
    let a = from + n;
    let ghost t = s@.skip(from as int).skip(n as int);
    assert(t =~= s@.skip(a as int));
    if a == s.len() {
        return None;
    }
    let m = lead_len(s, a, false);
    assert(t.take(m as int) =~= s@.subrange(a as int, (a + m) as int));
    assert(t.skip(m as int) =~= s@.skip((a + m) as int));
    Some((a, a + m))
}


/// The ASCII digit for `d < 10`.
pub open spec fn digit_char(d: nat) -> char {
    if d == 0 { '0' } else if d == 1 { '1' } else if d == 2 { '2' } else if d == 3 { '3' }
    else if d == 4 { '4' } else if d == 5 { '5' } else if d == 6 { '6' } else if d == 7 { '7' }
    else if d == 8 { '8' } else { '9' }
}

/// The decimal notation of `n`, as `{}` formats an unsigned integer.
pub open spec fn decimal(n: nat) -> Seq<char>
    decreases n,
{
    if n < 10 {
        seq![digit_char(n)]
    } else {
        decimal(n / 10).push(digit_char(n % 10))
    }
}

fn digit(d: usize) -> (c: char)
    requires
        d < 10,
    ensures
        c == digit_char(d as nat),
{
    if d == 0 { '0' } else if d == 1 { '1' } else if d == 2 { '2' } else if d == 3 { '3' }
    else if d == 4 { '4' } else if d == 5 { '5' } else if d == 6 { '6' } else if d == 7 { '7' }
    else if d == 8 { '8' } else { '9' }
}

/// Appends the decimal notation of `n` to `out`.
pub fn push_decimal(out: &mut Vec<char>, n: usize)
    ensures
        final(out)@ == old(out)@ + decimal(n as nat),
    decreases n,
{
    if n < 10 {
        out.push(digit(n));
        assert(old(out)@.push(digit_char(n as nat)) =~= old(out)@ + decimal(n as nat));
    } else {
        push_decimal(out, n / 10);
        out.push(digit(n % 10));
        assert(old(out)@ + decimal((n / 10) as nat) + seq![digit_char((n % 10) as nat)]
            =~= old(out)@ + decimal(n as nat));
    }
}

/// Appends all of `src` to `out`.
pub fn push_all(out: &mut Vec<char>, src: &[char])
    ensures
        final(out)@ == old(out)@ + src@,
{
    let mut i: usize = 0;
    while i < src.len()
        invariant
            i <= src.len(),
            out@ == old(out)@ + src@.take(i as int),
        decreases src.len() - i,
    {
        out.push(src[i]);
        assert(old(out)@ + src@.take(i + 1) =~= (old(out)@ + src@.take(i as int)).push(src@[i as int]));
        i += 1;
    }
    assert(src@.take(src.len() as int) =~= src@);
}

/// Appends the characters of `src` to `out`.
pub fn push_str(out: &mut Vec<char>, src: &str)
    ensures
        final(out)@ == old(out)@ + src@,
{
    let v = str_chars(src);
    push_all(out, &v);
}

/// Whether two character sequences are equal.
pub fn chars_eq(a: &[char], b: &[char]) -> (r: bool)
    ensures
        r == (a@ == b@),
{
    if a.len() != b.len() {
        return false;
    }
    let r = matches_at(a, b, 0);
    assert(a@.subrange(0, b.len() as int) =~= a@);
    r
}


/// The text before the first occurrence of `pat`, or all of `s`.
pub open spec fn first_piece(s: Seq<char>, pat: Seq<char>) -> Seq<char> {
    match find_str(s, pat) {
        Some(i) => s.take(i),
        None => s,
    }
}

/// The views of a list of character vectors.
pub open spec fn vec_views(v: Seq<Vec<char>>) -> Seq<Seq<char>> {
    v.map_values(|x: Vec<char>| x@)
}

/// The pieces of `s` between the occurrences of `pat`.
pub fn split_pieces(s: &[char], pat: &[char]) -> (r: Vec<Vec<char>>)
    requires
        pat.len() > 0,
    ensures
        vec_views(r@) == split_str(s@, pat@),
{
    let mut out: Vec<Vec<char>> = Vec::new();
    let mut pos: usize = 0;
    assert(s@.skip(0) =~= s@);
    assert(vec_views(out@) + split_str(s@, pat@) =~= split_str(s@, pat@));
    loop
        invariant
            pos <= s.len(),
            pat.len() > 0,
            split_str(s@, pat@) == vec_views(out@) + split_str(s@.skip(pos as int), pat@),
        decreases s.len() - pos,
    {
        let ghost rest = s@.skip(pos as int);
        proof {
            lemma_split_step(rest, pat@);
        }
        match find_in_suffix(s, pat, pos) {
            None => {
                let piece = copy_range(s, pos, s.len());
                let ghost before = vec_views(out@);
                out.push(piece);
                assert(rest =~= s@.subrange(pos as int, s.len() as int));
                assert(vec_views(out@) =~= before.push(piece@));
                return out;
            },
            Some(k) => {
                let piece = copy_range(s, pos, k);
                let ghost before = vec_views(out@);
                out.push(piece);
                assert(vec_views(out@) =~= before.push(piece@));
                let ghost i = (k - pos) as int;
                assert(rest.take(i) =~= s@.subrange(pos as int, k as int));
                assert(rest.skip(i + pat.len()) =~= s@.skip(k + pat.len()));
                pos = k + pat.len();
            },
        }
    }
}

/// The text of `s` before the first occurrence of `pat`.
pub fn first_piece_chars(s: &[char], pat: &[char]) -> (r: Vec<char>)
    ensures
        r@ == first_piece(s@, pat@),
{
    match find_chars(s, pat) {
        Some(i) => {
            proof {
                lemma_find_from(s@, pat@, 0);
            }
            let r = copy_range(s, 0, i);
            assert(r@ =~= s@.take(i as int));
            r
        },
        None => {
            let r = copy_range(s, 0, s.len());
            assert(r@ =~= s@);
            r
        },
    }
}

/// The characters `s[from..]`.
pub fn copy_suffix(s: &[char], from: usize) -> (r: Vec<char>)
    requires
        from <= s.len(),
    ensures
        r@ == s@.skip(from as int),
{
    let r = copy_range(s, from, s.len());
    assert(r@ =~= s@.skip(from as int));
    r
}


/// Joining one more piece adds the separator and the piece at the end.
pub proof fn lemma_join_push(parts: Seq<Seq<char>>, sep: Seq<char>, x: Seq<char>)
    ensures
        join(parts.push(x), sep) == (if parts.len() == 0 {
            x
        } else {
            join(parts, sep) + sep + x
        }),
    decreases parts.len(),
{
    if parts.len() == 0 {
        assert(parts.push(x).len() == 1);
        assert(parts.push(x)[0] == x);
    } else if parts.len() == 1 {
        assert(parts.push(x).drop_first() =~= seq![x]);
        assert(join(seq![x], sep) == x);
        assert(parts.push(x)[0] == parts[0]);
        assert(join(parts.push(x), sep) == parts[0] + sep + join(seq![x], sep));
    } else {
        assert(parts.push(x)[0] == parts[0]);
        assert(parts.push(x).drop_first() =~= parts.drop_first().push(x));
        lemma_join_push(parts.drop_first(), sep, x);
        assert(join(parts.push(x), sep) == parts[0] + sep + join(parts.drop_first().push(x), sep));
        assert(join(parts.push(x), sep) =~= join(parts, sep) + sep + x);
    }
}

/// The pieces one after another.
pub open spec fn concat(parts: Seq<Seq<char>>) -> Seq<char>
    decreases parts.len(),
{
    if parts.len() == 0 {
        Seq::empty()
    } else {
        concat(parts.drop_last()) + parts.last()
    }
}


/// The UTF-8 bytes of the characters `v`.
pub fn chars_to_bytes(v: &[char]) -> (r: Vec<u8>)
    ensures
        r@ == vstd::utf8::encode_utf8(v@),
{
    let s = chars_to_string(v);
    let b = s.as_str().as_bytes();
    vstd::slice::slice_to_vec(b)
}

/// Splitting the join of pieces that do not hold the separator gives the
/// pieces back.
pub proof fn lemma_split_join(parts: Seq<Seq<char>>, c: char)
    requires
        parts.len() > 0,
        forall|i: int, j: int| 0 <= i < parts.len() && 0 <= j < parts[i].len() ==> #[trigger] parts[i][j] != c,
    ensures
        split_str(join(parts, seq![c]), seq![c]) == parts,
    decreases parts.len(),
{
    let p0 = parts[0];
    if parts.len() == 1 {
        assert forall|j: int| 0 <= j implies !occurs_at(p0, seq![c], j) by {
            if j < p0.len() {
                assert(p0.subrange(j, j + 1)[0] == p0[j]);
                assert(parts[0][j] != c);
            }
        }
        lemma_find_str_none(p0, seq![c]);
        lemma_split_step(p0, seq![c]);
        assert(split_str(p0, seq![c]) =~= parts);
    } else {
        let rest = parts.drop_first();
        let s = p0 + seq![c] + join(rest, seq![c]);
        assert(join(parts, seq![c]) == s);
        let k = p0.len() as int;
        assert(s.subrange(k, k + 1) =~= seq![c]);
        assert forall|j: int| 0 <= j < k implies !occurs_at(s, seq![c], j) by {
            assert(s.subrange(j, j + 1)[0] == s[j]);
            assert(s[j] == parts[0][j]);
        }
        lemma_find_str_is(s, seq![c], k);
        lemma_split_step(s, seq![c]);
        assert(s.take(k) =~= p0);
        assert(s.skip(k + 1) =~= join(rest, seq![c]));
        assert forall|i: int, j: int| 0 <= i < rest.len() && 0 <= j < rest[i].len() implies #[trigger] rest[i][j] != c by {
            assert(rest[i] == parts[i + 1]);
        }
        lemma_split_join(rest, c);
        assert(seq![p0] + rest =~= parts);
    }
}

/// A line without the carriage return that ends it, if any.
pub open spec fn strip_cr(line: Seq<char>) -> Seq<char> {
    if line.len() > 0 && line.last() == '\r' {
        line.drop_last()
    } else {
        line
    }
}

/// The lines of a text (`str::lines`): the pieces between line feeds, each
/// but the last without its carriage return. An empty last piece gives no
/// header, so it is kept.
pub open spec fn text_lines(s: Seq<char>) -> Seq<Seq<char>> {
    let ps = split_str(s, seq!['\n']);
    Seq::new(ps.len(), |i: int| if i < ps.len() - 1 { strip_cr(ps[i]) } else { ps[i] })
}

/// A piece of text cut at a line feed, as a line: without its carriage
/// return where it is not the last piece.
pub fn line_of_piece(piece: &Vec<char>, strip: bool) -> (r: Vec<char>)
    ensures
        r@ == (if strip { strip_cr(piece@) } else { piece@ }),
{
    if strip && piece.len() > 0 && piece[piece.len() - 1] == '\r' {
        let r = copy_range(piece, 0, piece.len() - 1);
        assert(r@ =~= piece@.drop_last());
        r
    } else {
        let r = copy_range(piece, 0, piece.len());
        assert(r@ =~= piece@);
        r
    }
}

/// The lines of a text (`str::lines`, see `text_lines`).
pub fn text_lines_of(s: &str) -> (r: Vec<String>)
    ensures
        r@.map_values(|x: String| x@) == text_lines(s@),
{
    let c = str_chars(s);
    let nl: Vec<char> = vec!['\n'];
    assert(nl@ =~= seq!['\n']);
    let pieces = split_pieces(&c, &nl);
    let ghost lines = text_lines(s@);
    let mut out: Vec<String> = Vec::new();
    let mut k: usize = 0;
    let n = pieces.len();
    while k < n
        invariant
            k <= n,
            n == pieces@.len(),
            vec_views(pieces@) == split_str(s@, seq!['\n']),
            lines == text_lines(s@),
            out@.map_values(|x: String| x@) == lines.take(k as int),
        decreases n - k,
    {
        let piece = &pieces[k];
        assert(vec_views(pieces@)[k as int] == piece@);
        let line = line_of_piece(piece, k + 1 < n);
        let ghost before = out@;
        let ls = chars_to_string(&line);
        out.push(ls);
        assert(out@ == before.push(ls));
        assert(out@.map_values(|x: String| x@) =~= before.map_values(|x: String| x@).push(ls@));
        assert(lines.take(k + 1) =~= lines.take(k as int).push(lines[k as int]));
        k += 1;
    }
    assert(lines.take(n as int) =~= lines);
    out
}

/// Splitting the join of pieces without a line feed, joined by CR LF, at
/// CR LF gives the pieces back.
pub proof fn lemma_split_join_crlf(parts: Seq<Seq<char>>)
    requires
        parts.len() > 0,
        forall|i: int, j: int| 0 <= i < parts.len() && 0 <= j < parts[i].len() ==> #[trigger] parts[i][j] != '\n',
    ensures
        split_str(join(parts, seq!['\r', '\n']), seq!['\r', '\n']) == parts,
    decreases parts.len(),
{
    let crlf = seq!['\r', '\n'];
    let p0 = parts[0];
    if parts.len() == 1 {
        assert forall|j: int| 0 <= j implies !occurs_at(p0, crlf, j) by {
            if j + 2 <= p0.len() {
                assert(p0.subrange(j, j + 2)[1] == p0[j + 1]);
                assert(parts[0][j + 1] != '\n');
            }
        }
        lemma_find_str_none(p0, crlf);
        lemma_split_step(p0, crlf);
        assert(split_str(p0, crlf) =~= parts);
    } else {
        let rest = parts.drop_first();
        let s = p0 + crlf + join(rest, crlf);
        assert(join(parts, crlf) == s);
        let k = p0.len() as int;
        assert(s.subrange(k, k + 2) =~= crlf);
        assert forall|j: int| 0 <= j < k implies !occurs_at(s, crlf, j) by {
            assert(s.subrange(j, j + 2)[1] == s[j + 1]);
            if j + 1 < k {
                assert(s[j + 1] == parts[0][j + 1]);
            } else {
                assert(s[j + 1] == '\r');
            }
        }
        lemma_find_str_is(s, crlf, k);
        lemma_split_step(s, crlf);
        assert(s.take(k) =~= p0);
        assert(s.skip(k + 2) =~= join(rest, crlf));
        assert forall|i: int, j: int| 0 <= i < rest.len() && 0 <= j < rest[i].len() implies #[trigger] rest[i][j] != '\n' by {
            assert(rest[i] == parts[i + 1]);
        }
        lemma_split_join_crlf(rest);
        assert(seq![p0] + rest =~= parts);
    }
}

} // verus!
