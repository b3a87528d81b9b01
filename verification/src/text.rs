//! Character-level text operations over `String` and `&str`, each stated over
//! the `Seq<char>` view of its arguments.
use vstd::prelude::*;
use vstd::string::*;

verus! {

/// The Unicode `White_Space` property, which is what `char::is_whitespace`
/// tests.
pub open spec fn is_ws(c: char) -> bool {
    let u = c as u32;
    ||| 0x09 <= u <= 0x0d
    ||| u == 0x20
    ||| u == 0x85
    ||| u == 0xa0
    ||| u == 0x1680
    ||| 0x2000 <= u <= 0x200a
    ||| u == 0x2028
    ||| u == 0x2029
    ||| u == 0x202f
    ||| u == 0x205f
    ||| u == 0x3000
}

/// Whether `c` is Unicode whitespace.
pub fn is_whitespace(c: char) -> (r: bool)
    ensures
        r == is_ws(c),
{
    let u = c as u32;
    (0x09 <= u && u <= 0x0d) || u == 0x20 || u == 0x85 || u == 0xa0 || u == 0x1680 || (0x2000
        <= u && u <= 0x200a) || u == 0x2028 || u == 0x2029 || u == 0x202f || u == 0x205f || u
        == 0x3000
}

/// `s` without its leading whitespace.
pub open spec fn trim_start(s: Seq<char>) -> Seq<char>
    decreases s.len(),
{
    if s.len() > 0 && is_ws(s[0]) {
        trim_start(s.drop_first())
    } else {
        s
    }
}

/// `s` without its trailing whitespace.
pub open spec fn trim_end(s: Seq<char>) -> Seq<char>
    decreases s.len(),
{
    if s.len() > 0 && is_ws(s.last()) {
        trim_end(s.drop_last())
    } else {
        s
    }
}

/// `s` without leading and trailing whitespace, as `str::trim` gives it.
pub open spec fn trim(s: Seq<char>) -> Seq<char> {
    trim_end(trim_start(s))
}

/// Whether `p` is a prefix of `s`.
pub open spec fn has_prefix(s: Seq<char>, p: Seq<char>) -> bool {
    p.len() <= s.len() && s.subrange(0, p.len() as int) == p
}

/// The index of the first `c` in `s`, if any.
pub open spec fn first_index(s: Seq<char>, c: char) -> Option<nat>
    decreases s.len(),
{
    if s.len() == 0 {
        None
    } else if s[0] == c {
        Some(0)
    } else {
        match first_index(s.drop_first(), c) {
            Some(i) => Some(i + 1),
            None => None,
        }
    }
}

/// The parts of `s` before and after the first occurrence of `c`, as
/// `str::split_once` gives them.
pub open spec fn split_once(s: Seq<char>, c: char) -> Option<(Seq<char>, Seq<char>)> {
    match first_index(s, c) {
        Some(i) => Some((s.take(i as int), s.skip(i as int + 1))),
        None => None,
    }
}

/// The pieces of `s` between occurrences of `c`, as `str::split` gives them.
#[verifier::opaque]
pub open spec fn split_on(s: Seq<char>, c: char) -> Seq<Seq<char>>
    decreases s.len(),
{
    match split_once(s, c) {
        None => seq![s],
        Some(parts) => {
            if parts.1.len() < s.len() {
                seq![parts.0] + split_on(parts.1, c)
            } else {
                seq![s]
            }
        },
    }
}

/// `parts` joined with `sep` between consecutive parts.
pub open spec fn join(parts: Seq<Seq<char>>, sep: Seq<char>) -> Seq<char>
    decreases parts.len(),
{
    if parts.len() == 0 {
        Seq::empty()
    } else if parts.len() == 1 {
        parts[0]
    } else {
        join(parts.drop_last(), sep) + sep + parts.last()
    }
}

/// The views of a sequence of strings.
pub open spec fn views(v: Seq<String>) -> Seq<Seq<char>> {
    v.map_values(|s: String| s@)
}

/// `s` padded with spaces on the right to at least `width` characters, as the
/// `{:<width$}` format gives it.
pub open spec fn pad_right(s: Seq<char>, width: nat) -> Seq<char> {
    if s.len() >= width {
        s
    } else {
        s + Seq::new((width - s.len()) as nat, |i: int| ' ')
    }
}

/// Decimal digits of `n`, as `Display` for an unsigned integer writes them.
pub open spec fn decimal(n: nat) -> Seq<char>
    decreases n,
{
    if n < 10 {
        seq![digit_char(n)]
    } else {
        decimal(n / 10).push(digit_char(n % 10))
    }
}

/// The ASCII digit for `d`.
pub open spec fn digit_char(d: nat) -> char {
    if d == 0 {
        '0'
    } else if d == 1 {
        '1'
    } else if d == 2 {
        '2'
    } else if d == 3 {
        '3'
    } else if d == 4 {
        '4'
    } else if d == 5 {
        '5'
    } else if d == 6 {
        '6'
    } else if d == 7 {
        '7'
    } else if d == 8 {
        '8'
    } else {
        '9'
    }
}

/// Appends `c` to `s`.
#[verifier::external_body]
pub fn push_char(s: &mut String, c: char)
    ensures
        final(s)@ == old(s)@.push(c),
{
    s.push(c);
}

/// The characters of `s`.
pub fn chars_of(s: &str) -> (r: Vec<char>)
    ensures
        r@ == s@,
{
    let n = s.unicode_len();
    let mut r: Vec<char> = Vec::new();
    let mut i: usize = 0;
    while i < n
        invariant
            n == s@.len(),
            i <= n,
            r@ == s@.take(i as int),
        decreases n - i,
    {
        r.push(s.get_char(i));
        i = i + 1;
        assert(r@ =~= s@.take(i as int));
    }
    assert(r@ =~= s@);
    r
}

/// The string made of the characters `cs[from..to]`.
pub fn string_from_range(cs: &Vec<char>, from: usize, to: usize) -> (r: String)
    requires
        from <= to <= cs.len(),
    ensures
        r@ == cs@.subrange(from as int, to as int),
{
    let mut r = String::new();
    let mut i = from;
    while i < to
        invariant
            from <= i <= to <= cs.len(),
            r@ == cs@.subrange(from as int, i as int),
        decreases to - i,
    {
        push_char(&mut r, cs[i]);
        i = i + 1;
        assert(r@ =~= cs@.subrange(from as int, i as int));
    }
    r
}

/// A copy of `s` as an owned `String`.
pub fn owned(s: &str) -> (r: String)
    ensures
        r@ == s@,
{
    s.to_owned()
}

/// `a` followed by `b`.
pub fn concat(a: &str, b: &str) -> (r: String)
    ensures
        r@ == a@ + b@,
{
    let mut r = a.to_owned();
    r.append(b);
    r
}

/// Whether two strings hold the same characters.
pub fn str_eq(a: &str, b: &str) -> (r: bool)
    ensures
        r == (a@ == b@),
{
    let x = a.to_owned();
    let y = b.to_owned();
    x == y
}

/// Skipping leading whitespace leaves what `trim_start` leaves.
proof fn lemma_trim_start_skip(s: Seq<char>, i: int)
    requires
        0 <= i <= s.len(),
        forall|k: int| 0 <= k < i ==> is_ws(#[trigger] s[k]),
    ensures
        trim_start(s) == trim_start(s.skip(i)),
    decreases i,
{
    if i > 0 {
        assert(s.skip(1) =~= s.drop_first());
        lemma_trim_start_skip(s.drop_first(), i - 1);
        assert(s.drop_first().skip(i - 1) =~= s.skip(i));
    } else {
        assert(s.skip(0) =~= s);
    }
}

/// Taking up to trailing whitespace leaves what `trim_end` leaves.
proof fn lemma_trim_end_take(s: Seq<char>, j: int)
    requires
        0 <= j <= s.len(),
        forall|k: int| j <= k < s.len() ==> is_ws(#[trigger] s[k]),
    ensures
        trim_end(s) == trim_end(s.take(j)),
    decreases s.len() - j,
{
    if j < s.len() {
        lemma_trim_end_take(s.drop_last(), j);
        assert(s.drop_last().take(j) =~= s.take(j));
    } else {
        assert(s.take(j) =~= s);
    }
}

/// `s` without leading and trailing whitespace.
pub fn trim_str(s: &str) -> (r: String)
    ensures
        r@ == trim(s@),
{
    let cs = chars_of(s);
    let n = cs.len();
    let mut i: usize = 0;
    while i < n && is_whitespace(cs[i])
        invariant
            cs@ == s@,
            n == cs.len(),
            i <= n,
            forall|k: int| 0 <= k < i ==> is_ws(#[trigger] cs@[k]),
        decreases n - i,
    {
        i = i + 1;
    }
    proof {
        lemma_trim_start_skip(s@, i as int);
    }
    let mut j: usize = n;
    while j > i && is_whitespace(cs[j - 1])
        invariant
            cs@ == s@,
            n == cs.len(),
            i <= j <= n,
            forall|k: int| j <= k < n ==> is_ws(#[trigger] cs@[k]),
        decreases j,
    {
        j = j - 1;
    }
    proof {
        let t = s@.skip(i as int);
        assert(i == n || !is_ws(t[0]));
        assert(trim_start(t) == t);
        lemma_trim_end_take(t, j - i);
        assert(t.take(j - i) =~= cs@.subrange(i as int, j as int));
        let u = cs@.subrange(i as int, j as int);
        assert(j == i || !is_ws(u.last()));
    }
    string_from_range(&cs, i, j)
}

/// Whether `p` is a prefix of `s`.
pub fn starts_with(s: &str, p: &str) -> (r: bool)
    ensures
        r == has_prefix(s@, p@),
{
    let cs = chars_of(s);
    let ps = chars_of(p);
    if ps.len() > cs.len() {
        return false;
    }
    let mut i: usize = 0;
    while i < ps.len()
        invariant
            cs@ == s@,
            ps@ == p@,
            ps.len() <= cs.len(),
            i <= ps.len(),
            forall|k: int| 0 <= k < i ==> cs@[k] == ps@[k],
        decreases ps.len() - i,
    {
        if cs[i] != ps[i] {
            assert(s@.subrange(0, p@.len() as int)[i as int] != p@[i as int]);
            return false;
        }
        i = i + 1;
    }
    assert(s@.subrange(0, p@.len() as int) =~= p@);
    true
}

/// Whether the first character of `s` is `c`.
pub fn starts_with_char(s: &str, c: char) -> (r: bool)
    ensures
        r == (s@.len() > 0 && s@[0] == c),
{
    let n = s.unicode_len();
    n > 0 && s.get_char(0) == c
}

/// The index of the first `c` in `cs`, if any.
pub fn find_char(cs: &Vec<char>, c: char) -> (r: Option<usize>)
    ensures
        r matches Some(i) ==> i < cs.len() && cs@[i as int] == c && !cs@.take(i as int).contains(
            c,
        ),
        r is None ==> !cs@.contains(c) && first_index(cs@, c) is None,
{
    let mut i: usize = 0;
    while i < cs.len()
        invariant
            i <= cs.len(),
            forall|k: int| 0 <= k < i ==> cs@[k] != c,
        decreases cs.len() - i,
    {
        if cs[i] == c {
            assert(!cs@.take(i as int).contains(c)) by {
                if cs@.take(i as int).contains(c) {
                    let k = choose|k: int| 0 <= k < i && cs@.take(i as int)[k] == c;
                    assert(cs@[k] == c);
                }
            }
            return Some(i);
        }
        i = i + 1;
    }
    assert(!cs@.contains(c)) by {
        if cs@.contains(c) {
            let k = choose|k: int| 0 <= k < cs@.len() && cs@[k] == c;
            assert(cs@[k] != c);
        }
    }
    proof {
        lemma_first_index_none(cs@, c);
    }
    None
}

/// The first occurrence of `c` in `s` is at `i`, so `split_once` splits there.
pub proof fn lemma_split_once_at(s: Seq<char>, c: char, k: int)
    requires
        0 <= k < s.len(),
        s[k] == c,
        !s.take(k).contains(c),
    ensures
        split_once(s, c) == Some((s.take(k), s.skip(k + 1))),
        first_index(s, c) == Some(k as nat),
    decreases k,
{
    if k > 0 {
        assert(s.take(k)[0] == s[0]);
        assert(s[0] != c);
        let t = s.drop_first();
        let tk = t.take(k - 1);
        assert(!tk.contains(c)) by {
            if tk.contains(c) {
                let m = choose|m: int| 0 <= m < tk.len() && tk[m] == c;
                assert(s.take(k)[m + 1] == c);
            }
        }
        lemma_split_once_at(t, c, k - 1);
    }
}

/// `s` holds no `c`, so `first_index` finds none.
pub proof fn lemma_first_index_none(s: Seq<char>, c: char)
    requires
        !s.contains(c),
    ensures
        first_index(s, c) is None,
    decreases s.len(),
{
    if s.len() > 0 {
        let t = s.drop_first();
        assert(!t.contains(c)) by {
            if t.contains(c) {
                let m = choose|m: int| 0 <= m < t.len() && t[m] == c;
                assert(s[m + 1] == c);
            }
        }
        lemma_first_index_none(t, c);
    }
}

/// `s` holds no `c`, so `split_on` gives `s` whole.
pub proof fn lemma_split_on_none(s: Seq<char>, c: char)
    requires
        !s.contains(c),
    ensures
        split_on(s, c) == seq![s],
{
    reveal(split_on);
    lemma_first_index_none(s, c);
}

/// The first `c` in `s` is at `i`, so `split_on` splits there first.
pub proof fn lemma_split_on_at(s: Seq<char>, c: char, i: int)
    requires
        0 <= i < s.len(),
        s[i] == c,
        !s.take(i).contains(c),
    ensures
        split_on(s, c) == seq![s.take(i)] + split_on(s.skip(i + 1), c),
{
    reveal(split_on);
    lemma_split_once_at(s, c, i);
}

/// `split_on` gives at least one piece.
pub proof fn lemma_split_on_len(s: Seq<char>, c: char)
    ensures
        split_on(s, c).len() >= 1,
    decreases s.len(),
{
    reveal(split_on);
    match split_once(s, c) {
        None => {},
        Some(parts) => {
            if parts.1.len() < s.len() {
                lemma_split_on_len(parts.1, c);
            }
        },
    }
}

/// Copies of the strings `v[from..]`.
pub fn tail(v: &[String], from: usize) -> (r: Vec<String>)
    requires
        from <= v@.len(),
    ensures
        views(r@) == views(v@).skip(from as int),
{
    let mut r: Vec<String> = Vec::new();
    let mut i = from;
    while i < v.len()
        invariant
            from <= i <= v@.len(),
            views(r@) == views(v@).subrange(from as int, i as int),
        decreases v@.len() - i,
    {
        let ghost old_r = r@;
        let x = v[i].clone();
        r.push(x);
        proof {
            lemma_views_push(old_r, x);
            assert(views(v@).subrange(from as int, i + 1) =~= views(v@).subrange(from as int, i as int).push(v@[i as int]@));
        }
        i = i + 1;
    }
    assert(views(v@).subrange(from as int, v@.len() as int) =~= views(v@).skip(from as int));
    r
}

/// The views of a sequence of strings after a push.
pub proof fn lemma_views_push(v: Seq<String>, x: String)
    ensures
        views(v.push(x)) == views(v).push(x@),
{
    assert(views(v.push(x)) =~= views(v).push(x@));
}

/// The parts of `s` before and after the first `c`, if `s` holds one.
pub fn split_once_str(s: &str, c: char) -> (r: Option<(String, String)>)
    ensures
        match r {
            Some(parts) => split_once(s@, c) == Some((parts.0@, parts.1@)),
            None => split_once(s@, c) is None,
        },
{
    let cs = chars_of(s);
    match find_char(&cs, c) {
        Some(i) => {
            proof {
                lemma_split_once_at(s@, c, i as int);
            }
            let a = string_from_range(&cs, 0, i);
            let b = string_from_range(&cs, i + 1, cs.len());
            assert(a@ =~= s@.take(i as int));
            assert(b@ =~= s@.skip(i + 1));
            Some((a, b))
        },
        None => None,
    }
}

/// The pieces of `s` between occurrences of `c`.
pub fn split_str(s: &str, c: char) -> (r: Vec<String>)
    ensures
        views(r@) == split_on(s@, c),
{
    let cs = chars_of(s);
    let mut r: Vec<String> = Vec::new();
    let mut start: usize = 0;
    assert(cs@.skip(0) =~= s@);
    assert(views(r@) + split_on(s@, c) =~= split_on(s@, c));
    loop
        invariant
            cs@ == s@,
            start <= cs.len(),
            views(r@) + split_on(cs@.skip(start as int), c) == split_on(s@, c),
        decreases cs.len() - start,
    {
        let ghost rest = cs@.skip(start as int);
        let mut i = start;
        while i < cs.len() && cs[i] != c
            invariant
                start <= i <= cs.len(),
                forall|k: int| start <= k < i ==> cs@[k] != c,
            decreases cs.len() - i,
        {
            i = i + 1;
        }
        let piece = string_from_range(&cs, start, i);
        let ghost old_r = r@;
        proof {
            lemma_views_push(old_r, piece);
        }
        if i == cs.len() {
            proof {
                assert(!rest.contains(c)) by {
                    if rest.contains(c) {
                        let k = choose|k: int| 0 <= k < rest.len() && rest[k] == c;
                        assert(cs@[start + k] == c);
                    }
                }
                assert(piece@ =~= rest);
                lemma_split_on_none(rest, c);
            }
            r.push(piece);
            return r;
        }
        proof {
            let k = i - start;
            assert(!rest.take(k).contains(c)) by {
                if rest.take(k).contains(c) {
                    let m = choose|m: int| 0 <= m < k && rest.take(k)[m] == c;
                    assert(cs@[start + m] == c);
                }
            }
            lemma_split_on_at(rest, c, k);
            assert(rest.take(k) =~= piece@);
            assert(rest.skip(k + 1) =~= cs@.skip(i + 1));
        }
        r.push(piece);
        start = i + 1;
    }
}

/// `parts` joined with `sep`.
pub fn join_strings(parts: &Vec<String>, sep: &str) -> (r: String)
    ensures
        r@ == join(views(parts@), sep@),
{
    let mut r = String::new();
    let mut i: usize = 0;
    while i < parts.len()
        invariant
            i <= parts.len(),
            r@ == join(views(parts@).take(i as int), sep@),
        decreases parts.len() - i,
    {
        let ghost before = r@;
        if i > 0 {
            r.append(sep);
        }
        r.append(parts[i].as_str());
        proof {
            let vs = views(parts@).take(i + 1);
            assert(vs.drop_last() =~= views(parts@).take(i as int));
            if i == 0 {
                assert(r@ =~= vs[0]);
            }
        }
        i = i + 1;
    }
    assert(views(parts@).take(parts.len() as int) =~= views(parts@));
    r
}

/// `s` padded with spaces on the right to at least `width` characters.
pub fn pad_right_str(s: &str, width: usize) -> (r: String)
    ensures
        r@ == pad_right(s@, width as nat),
{
    let mut r = s.to_owned();
    let n = s.unicode_len();
    let mut k = n;
    while k < width
        invariant
            n == s@.len(),
            n <= k,
            n < width ==> k <= width,
            n >= width ==> k == n,
            r@ == s@ + Seq::new((k - n) as nat, |i: int| ' '),
        decreases width - k,
    {
        push_char(&mut r, ' ');
        k = k + 1;
        assert(r@ =~= s@ + Seq::new((k - n) as nat, |i: int| ' '));
    }
    if n >= width {
        assert(r@ =~= s@);
    }
    r
}

/// The decimal representation of `n`.
pub fn decimal_string(n: usize) -> (r: String)
    ensures
        r@ == decimal(n as nat),
{
    let mut digits: Vec<char> = Vec::new();
    let mut m = n;
    loop
        invariant_except_break
            decimal(n as nat) == decimal(m as nat) + digits@.reverse(),
        ensures
            decimal(n as nat) == digits@.reverse(),
        decreases m,
    {
        let d = m % 10;
        let c = if d == 0 {
            '0'
        } else if d == 1 {
            '1'
        } else if d == 2 {
            '2'
        } else if d == 3 {
            '3'
        } else if d == 4 {
            '4'
        } else if d == 5 {
            '5'
        } else if d == 6 {
            '6'
        } else if d == 7 {
            '7'
        } else if d == 8 {
            '8'
        } else {
            '9'
        };
        assert(c == digit_char((m % 10) as nat));
        let ghost old_digits = digits@;
        digits.push(c);
        assert(digits@.reverse() =~= seq![c] + old_digits.reverse());
        if m < 10 {
            assert(decimal(m as nat) == seq![c]);
            assert(decimal(n as nat) =~= digits@.reverse());
            break;
        }
        assert(decimal(m as nat) == decimal((m / 10) as nat).push(c));
        m = m / 10;
    }
    let mut r = String::new();
    let mut i = digits.len();
    while i > 0
        invariant
            i <= digits.len(),
            r@ == digits@.subrange(i as int, digits.len() as int).reverse(),
        decreases i,
    {
        i = i - 1;
        push_char(&mut r, digits[i]);
        assert(r@ =~= digits@.subrange(i as int, digits.len() as int).reverse());
    }
    assert(digits@.subrange(0, digits.len() as int) =~= digits@);
    r
}

} // verus!
