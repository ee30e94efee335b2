//! Character-level text handling: search, split, take-while, trimming and
//! building strings, each stated over the `Seq<char>` view of a string.
use vstd::prelude::*;

verus! {

/// `pat` occurs in `s` starting at index `i`.
pub open spec fn matches_at(s: Seq<char>, pat: Seq<char>, i: int) -> bool {
    &&& 0 <= i
    &&& i + pat.len() <= s.len()
    &&& s.subrange(i, i + pat.len()) == pat
}

/// The leftmost index `>= start` at which `pat` occurs in `s`.
pub open spec fn first_match_from(s: Seq<char>, pat: Seq<char>, start: int) -> Option<int>
    decreases s.len() as int + 1 - start,
{
    if start < 0 || start + pat.len() > s.len() {
        None
    } else if matches_at(s, pat, start) {
        Some(start)
    } else {
        first_match_from(s, pat, start + 1)
    }
}

/// The pieces of `s[start..]` between the non-overlapping, leftmost-first
/// occurrences of a non-empty `pat`, as `str::split` yields them.
pub open spec fn split_from(s: Seq<char>, pat: Seq<char>, start: int) -> Seq<Seq<char>>
    recommends
        pat.len() > 0,
    decreases s.len() - start,
{
    match first_match_from(s, pat, start) {
        Some(i) => if pat.len() > 0 && start <= i && i + pat.len() <= s.len() {
            seq![s.subrange(start, i)] + split_from(s, pat, i + pat.len())
        } else {
            seq![s.subrange(start, s.len() as int)]
        },
        None => seq![s.subrange(start, s.len() as int)],
    }
}

/// All pieces of `s` split at `pat`.
pub open spec fn split_pieces(s: Seq<char>, pat: Seq<char>) -> Seq<Seq<char>> {
    split_from(s, pat, 0)
}

/// The longest prefix of `s` that does not contain `c`
/// (`chars().take_while(|x| x != c)`).
pub open spec fn prefix_before(s: Seq<char>, c: char) -> Seq<char>
    decreases s.len(),
{
    if s.len() == 0 {
        s
    } else if s[0] == c {
        Seq::empty()
    } else {
        seq![s[0]] + prefix_before(s.drop_first(), c)
    }
}

/// What follows the first `c` in `s`; empty when `s` holds no `c`
/// (`chars().skip_while(|x| x != c).skip(1)`).
pub open spec fn after_first(s: Seq<char>, c: char) -> Seq<char>
    decreases s.len(),
{
    if s.len() == 0 {
        s
    } else if s[0] == c {
        s.drop_first()
    } else {
        after_first(s.drop_first(), c)
    }
}

/// `s` with every trailing `c` removed (`trim_end_matches(c)`).
pub open spec fn strip_trailing(s: Seq<char>, c: char) -> Seq<char>
    decreases s.len(),
{
    if s.len() > 0 && s.last() == c {
        strip_trailing(s.drop_last(), c)
    } else {
        s
    }
}

/// Unicode `White_Space`, which is what `char::is_whitespace` tests.
pub open spec fn is_white_space(c: char) -> bool {
    let u = c as u32;
    ||| 0x09 <= u <= 0x0d
    ||| u == 0x20
    ||| u == 0x85
    ||| u == 0xa0
    ||| u == 0x1680
    ||| 0x2000 <= u <= 0x200a
    ||| u == 0x2028
    ||| u == 0x2029
    ||| u == 0x202f
    ||| u == 0x205f
    ||| u == 0x3000
}

/// `s` without its leading white space.
pub open spec fn trim_start(s: Seq<char>) -> Seq<char>
    decreases s.len(),
{
    if s.len() > 0 && is_white_space(s[0]) {
        trim_start(s.drop_first())
    } else {
        s
    }
}

/// `s` without its trailing white space.
pub open spec fn trim_end(s: Seq<char>) -> Seq<char>
    decreases s.len(),
{
    if s.len() > 0 && is_white_space(s.last()) {
        trim_end(s.drop_last())
    } else {
        s
    }
}

/// `s` without leading and trailing white space (`str::trim`).
pub open spec fn trim(s: Seq<char>) -> Seq<char> {
    trim_end(trim_start(s))
}

/// The first `n` characters of `s`, or all of them when it is shorter
/// (`chars().take(n)`).
pub open spec fn take_at_most(s: Seq<char>, n: nat) -> Seq<char> {
    if s.len() <= n {
        s
    } else {
        s.take(n as int)
    }
}

/// Calls `String::push`, which std documents as appending `c` to the end of
/// the string; that is all that is claimed of it.
#[verifier::external_body]
pub(crate) fn push_char(s: &mut String, c: char)
    ensures
        final(s)@ == old(s)@.push(c),
{
    s.push(c);
}

/// The characters of `s`, in order.
pub fn chars_of(s: &str) -> (r: Vec<char>)
    ensures
        r@ == s@,
{
    let mut r: Vec<char> = Vec::new();
    for c in it: s.chars()
        invariant
            r@ == it.seq().take(it.index()),
    {
        r.push(c);
    }
    r
}

/// The string made of `v[from..to]`.
pub fn string_of(v: &Vec<char>, from: usize, to: usize) -> (r: String)
    requires
        from <= to <= v@.len(),
    ensures
        r@ == v@.subrange(from as int, to as int),
{
    let mut r = String::new();
    let mut i = from;
    while i < to
        invariant
            from <= i <= to <= v@.len(),
            r@ == v@.subrange(from as int, i as int),
        decreases to - i,
    {
        push_char(&mut r, v[i]);
        assert(v@.subrange(from as int, i + 1) == v@.subrange(from as int, i as int).push(v@[i as int]));
        i = i + 1;
    }
    r
}

/// `pat` occurs in `s` at `i`.
fn matches_at_exec(s: &Vec<char>, pat: &Vec<char>, i: usize) -> (r: bool)
    requires
        i + pat@.len() <= s@.len(),
    ensures
        r == matches_at(s@, pat@, i as int),
{
    let n = pat.len();
    let len = s.len();
    let mut k: usize = 0;
    while k < n
        invariant
            n == pat@.len(),
            len == s@.len(),
            i + n <= s@.len(),
            k <= n,
            forall|j: int| 0 <= j < k ==> s@[i + j] == pat@[j],
        decreases n - k,
    {
        if s[i + k] != pat[k] {
            assert(s@.subrange(i as int, i + n)[k as int] != pat@[k as int]);
            return false;
        }
        k = k + 1;
    }
    assert(s@.subrange(i as int, i + n) =~= pat@);
    true
}

/// The leftmost occurrence of `pat` in `s` at or after `start`.
pub fn find_from(s: &Vec<char>, pat: &Vec<char>, start: usize) -> (r: Option<usize>)
    ensures
        match r {
            Some(i) => first_match_from(s@, pat@, start as int) == Some(i as int),
            None => first_match_from(s@, pat@, start as int) is None,
        },
{
    let mut i = start;
    let n = pat.len();
    let len = s.len();
    while i <= len && n <= len - i
        invariant
            n == pat@.len(),
            len == s@.len(),
            start <= i,
            first_match_from(s@, pat@, start as int) == first_match_from(s@, pat@, i as int),
        decreases len + 1 - i,
    {
        if matches_at_exec(s, pat, i) {
            return Some(i);
        }
        assert(n > 0) by {
            if n == 0 {
                assert(s@.subrange(i as int, i as int) =~= pat@);
            }
        }
        i = i + 1;
    }
    None
}

/// Properties of a match found by `first_match_from`.
pub proof fn lemma_first_match_bounds(s: Seq<char>, pat: Seq<char>, start: int)
    requires
        0 <= start,
    ensures
        first_match_from(s, pat, start) matches Some(i) ==> start <= i && matches_at(s, pat, i),
        first_match_from(s, pat, start) is None ==> forall|j: int|
            start <= j ==> !#[trigger] matches_at(s, pat, j),
    decreases s.len() as int + 1 - start,
{
    if start + pat.len() > s.len() {
    } else if matches_at(s, pat, start) {
    } else {
        lemma_first_match_bounds(s, pat, start + 1);
        assert forall|j: int| start <= j && first_match_from(s, pat, start) is None implies
            !#[trigger] matches_at(s, pat, j) by {
            if j == start {
            }
        }
    }
}

/// All pieces of `s` split at the non-empty `pat`, in order.
pub fn split_all(s: &Vec<char>, pat: &Vec<char>) -> (r: Vec<Vec<char>>)
    requires
        pat@.len() > 0,
    ensures
        r@.len() == split_pieces(s@, pat@).len(),
        forall|k: int| 0 <= k < r@.len() ==> #[trigger] r@[k]@ == split_pieces(s@, pat@)[k],
{
    let mut r: Vec<Vec<char>> = Vec::new();
    let mut pos: usize = 0;
    let len = s.len();
    loop
        invariant
            len == s@.len(),
            pos <= len,
            pat@.len() > 0,
            r@.len() + split_from(s@, pat@, pos as int).len() == split_pieces(s@, pat@).len(),
            forall|k: int| 0 <= k < r@.len() ==> #[trigger] r@[k]@ == split_pieces(s@, pat@)[k],
            forall|k: int|
                0 <= k < split_from(s@, pat@, pos as int).len() ==> #[trigger] split_from(
                    s@,
                    pat@,
                    pos as int,
                )[k] == split_pieces(s@, pat@)[r@.len() + k],
        decreases len - pos,
    {
        proof {
            lemma_first_match_bounds(s@, pat@, pos as int);
        }
        let ghost rest = split_from(s@, pat@, pos as int);
        match find_from(s, pat, pos) {
            Some(i) => {
                let piece = string_chars(s, pos, i);
                let ghost tail = split_from(s@, pat@, i + pat@.len());
                assert(rest == seq![s@.subrange(pos as int, i as int)] + tail);
                assert(rest[0] == s@.subrange(pos as int, i as int));
                assert forall|k: int| 0 <= k < tail.len() implies #[trigger] tail[k]
                    == split_pieces(s@, pat@)[r@.len() + 1 + k] by {
                    assert(rest[k + 1] == tail[k]);
                }
                r.push(piece);
                pos = i + pat.len();
            },
            None => {
                let piece = string_chars(s, pos, len);
                assert(rest == seq![s@.subrange(pos as int, len as int)]);
                assert(rest[0] == s@.subrange(pos as int, len as int));
                r.push(piece);
                return r;
            },
        }
    }
}

/// `v[from..to]` as a new vector.
pub fn string_chars(v: &Vec<char>, from: usize, to: usize) -> (r: Vec<char>)
    requires
        from <= to <= v@.len(),
    ensures
        r@ == v@.subrange(from as int, to as int),
{
    let mut r: Vec<char> = Vec::new();
    let mut i = from;
    while i < to
        invariant
            from <= i <= to <= v@.len(),
            r@ == v@.subrange(from as int, i as int),
        decreases to - i,
    {
        r.push(v[i]);
        assert(v@.subrange(from as int, i + 1) == v@.subrange(from as int, i as int).push(
            v@[i as int],
        ));
        i = i + 1;
    }
    r
}

/// `s` up to the first `c` is `s.take(i)` when `i` is the first `c` (or the end).
pub proof fn lemma_prefix_before(s: Seq<char>, c: char, i: int)
    requires
        0 <= i <= s.len(),
        forall|j: int| 0 <= j < i ==> s[j] != c,
        i == s.len() || s[i] == c,
    ensures
        prefix_before(s, c) == s.take(i),
    decreases s.len(),
{
    if s.len() == 0 {
        assert(s.take(i) =~= s);
    } else if s[0] == c {
        assert(s.take(i) =~= Seq::<char>::empty());
    } else {
        let t = s.drop_first();
        assert forall|j: int| 0 <= j < i - 1 implies t[j] != c by {
            assert(t[j] == s[j + 1]);
        }
        lemma_prefix_before(t, c, i - 1);
        assert(seq![s[0]] + t.take(i - 1) =~= s.take(i));
    }
}

/// What follows the first `c`, when that `c` stands at `i`.
pub proof fn lemma_after_first(s: Seq<char>, c: char, i: int)
    requires
        0 <= i <= s.len(),
        forall|j: int| 0 <= j < i ==> s[j] != c,
        i == s.len() || s[i] == c,
    ensures
        after_first(s, c) == (if i == s.len() { Seq::empty() } else { s.skip(i + 1) }),
    decreases s.len(),
{
    if s.len() == 0 {
        assert(s =~= Seq::<char>::empty());
    } else if s[0] == c {
        assert(s.drop_first() =~= s.skip(1));
    } else {
        let t = s.drop_first();
        assert forall|j: int| 0 <= j < i - 1 implies t[j] != c by {
            assert(t[j] == s[j + 1]);
        }
        lemma_after_first(t, c, i - 1);
        if i < s.len() {
            assert(t.skip(i) =~= s.skip(i + 1));
        }
    }
}

/// Stripping the trailing `c`s leaves `s.take(k)` when `s[k..]` is all `c`
/// and `s[k - 1]` is not.
pub proof fn lemma_strip_trailing(s: Seq<char>, c: char, k: int)
    requires
        0 <= k <= s.len(),
        forall|j: int| k <= j < s.len() ==> s[j] == c,
        k == 0 || s[k - 1] != c,
    ensures
        strip_trailing(s, c) == s.take(k),
    decreases s.len(),
{
    if s.len() > 0 && s.last() == c {
        lemma_strip_trailing(s.drop_last(), c, k);
        assert(s.drop_last().take(k) =~= s.take(k));
    } else {
        assert(s.take(k) =~= s);
    }
}

/// Leading white space ends at `i`.
pub proof fn lemma_trim_start(s: Seq<char>, i: int)
    requires
        0 <= i <= s.len(),
        forall|j: int| 0 <= j < i ==> is_white_space(s[j]),
        i == s.len() || !is_white_space(s[i]),
    ensures
        trim_start(s) == s.skip(i),
    decreases s.len(),
{
    if s.len() > 0 && is_white_space(s[0]) {
        let t = s.drop_first();
        assert forall|j: int| 0 <= j < i - 1 implies is_white_space(t[j]) by {
            assert(t[j] == s[j + 1]);
        }
        lemma_trim_start(t, i - 1);
        assert(t.skip(i - 1) =~= s.skip(i));
    } else {
        assert(s.skip(i) =~= s);
    }
}

/// Trailing white space starts at `k`.
pub proof fn lemma_trim_end(s: Seq<char>, k: int)
    requires
        0 <= k <= s.len(),
        forall|j: int| k <= j < s.len() ==> is_white_space(s[j]),
        k == 0 || !is_white_space(s[k - 1]),
    ensures
        trim_end(s) == s.take(k),
    decreases s.len(),
{
    if s.len() > 0 && is_white_space(s.last()) {
        lemma_trim_end(s.drop_last(), k);
        assert(s.drop_last().take(k) =~= s.take(k));
    } else {
        assert(s.take(k) =~= s);
    }
}

/// `char::is_whitespace`.
pub fn is_white_space_exec(c: char) -> (r: bool)
    ensures
        r == is_white_space(c),
{
    let u = c as u32;
    (0x09 <= u && u <= 0x0d) || u == 0x20 || u == 0x85 || u == 0xa0 || u == 0x1680
        || (0x2000 <= u && u <= 0x200a) || u == 0x2028 || u == 0x2029 || u == 0x202f
        || u == 0x205f || u == 0x3000
}

/// The characters of `v` before its first `c`.
pub fn prefix_before_exec(v: &Vec<char>, c: char) -> (r: Vec<char>)
    ensures
        r@ == prefix_before(v@, c),
{
    let len = v.len();
    let mut i: usize = 0;
    while i < len && v[i] != c
        invariant
            len == v@.len(),
            i <= len,
            forall|j: int| 0 <= j < i ==> v@[j] != c,
        decreases len - i,
    {
        i = i + 1;
    }
    proof {
        lemma_prefix_before(v@, c, i as int);
    }
    string_chars(v, 0, i)
}

/// The characters of `v` after its first `c` (none when there is no `c`).
pub fn after_first_exec(v: &Vec<char>, c: char) -> (r: Vec<char>)
    ensures
        r@ == after_first(v@, c),
{
    let len = v.len();
    let mut i: usize = 0;
    while i < len && v[i] != c
        invariant
            len == v@.len(),
            i <= len,
            forall|j: int| 0 <= j < i ==> v@[j] != c,
        decreases len - i,
    {
        i = i + 1;
    }
    proof {
        lemma_after_first(v@, c, i as int);
    }
    if i == len {
        Vec::new()
    } else {
        string_chars(v, i + 1, len)
    }
}

/// `v` without its trailing `c`s.
pub fn strip_trailing_exec(v: &Vec<char>, c: char) -> (r: Vec<char>)
    ensures
        r@ == strip_trailing(v@, c),
{
    let len = v.len();
    let mut k: usize = len;
    while k > 0 && v[k - 1] == c
        invariant
            len == v@.len(),
            k <= len,
            forall|j: int| k <= j < len ==> v@[j] == c,
        decreases k,
    {
        k = k - 1;
    }
    proof {
        lemma_strip_trailing(v@, c, k as int);
    }
    string_chars(v, 0, k)
}

/// `v` without leading and trailing white space.
pub fn trim_exec(v: &Vec<char>) -> (r: Vec<char>)
    ensures
        r@ == trim(v@),
{
    let len = v.len();
    let mut i: usize = 0;
    while i < len && is_white_space_exec(v[i])
        invariant
            len == v@.len(),
            i <= len,
            forall|j: int| 0 <= j < i ==> is_white_space(v@[j]),
        decreases len - i,
    {
        i = i + 1;
    }
    let mut k: usize = len;
    while k > i && is_white_space_exec(v[k - 1])
        invariant
            len == v@.len(),
            i <= k <= len,
            forall|j: int| k <= j < len ==> is_white_space(v@[j]),
        decreases k,
    {
        k = k - 1;
    }
    proof {
        lemma_trim_start(v@, i as int);
        let t = v@.skip(i as int);
        assert forall|j: int| k - i <= j < t.len() implies is_white_space(t[j]) by {
            assert(t[j] == v@[j + i]);
        }
        if k > i {
            assert(t[k - i - 1] == v@[k - 1]);
        }
        lemma_trim_end(t, k - i);
        assert(t.take(k - i) =~= v@.subrange(i as int, k as int));
    }
    string_chars(v, i, k)
}

/// `pat` occurs somewhere in `s` (`str::contains`).
pub open spec fn contains_text(s: Seq<char>, pat: Seq<char>) -> bool {
    exists|i: int| matches_at(s, pat, i)
}

/// The first match at or after `start` is at `i` when `pat` occurs at `i`
/// and nowhere from `start` to `i`.
pub proof fn lemma_first_match_at(s: Seq<char>, pat: Seq<char>, start: int, i: int)
    requires
        0 <= start <= i,
        matches_at(s, pat, i),
        forall|j: int| start <= j < i ==> !#[trigger] matches_at(s, pat, j),
    ensures
        first_match_from(s, pat, start) == Some(i),
    decreases i - start,
{
    if start < i {
        assert(!matches_at(s, pat, start));
        lemma_first_match_at(s, pat, start + 1, i);
    }
}

/// Without leading white space a text is no longer, and it is shorter when
/// it starts with white space.
pub proof fn lemma_trim_start_len(s: Seq<char>)
    ensures
        trim_start(s).len() <= s.len(),
        s.len() > 0 && is_white_space(s[0]) ==> trim_start(s).len() < s.len(),
    decreases s.len(),
{
    if s.len() > 0 && is_white_space(s[0]) {
        lemma_trim_start_len(s.drop_first());
    }
}

/// Without trailing white space a text is no longer, and it is shorter when
/// it ends with white space.
pub proof fn lemma_trim_end_len(s: Seq<char>)
    ensures
        trim_end(s).len() <= s.len(),
        s.len() > 0 && is_white_space(s.last()) ==> trim_end(s).len() < s.len(),
    decreases s.len(),
{
    if s.len() > 0 && is_white_space(s.last()) {
        lemma_trim_end_len(s.drop_last());
    }
}

/// Trimming white space around an already trimmed text gives that text back.
pub proof fn lemma_trim_padded(ws1: Seq<char>, d: Seq<char>, ws2: Seq<char>)
    requires
        forall|i: int| 0 <= i < ws1.len() ==> is_white_space(#[trigger] ws1[i]),
        forall|i: int| 0 <= i < ws2.len() ==> is_white_space(#[trigger] ws2[i]),
        trim(d) == d,
    ensures
        trim(ws1 + d + ws2) == d,
{
    let x = ws1 + d + ws2;
    if d.len() > 0 {
        lemma_trim_start_len(d);
        lemma_trim_end_len(trim_start(d));
        assert(!is_white_space(d[0]));
        assert(trim_start(d) == d);
        lemma_trim_end_len(d);
        assert(!is_white_space(d.last()));
    }
    let i = if d.len() > 0 {
        ws1.len() as int
    } else {
        x.len() as int
    };
    assert forall|j: int| 0 <= j < i implies is_white_space(x[j]) by {
        if j < ws1.len() {
            assert(x[j] == ws1[j]);
        } else {
            assert(x[j] == ws2[j - ws1.len() - d.len()]);
        }
    }
    if d.len() > 0 {
        assert(x[i] == d[0]);
    }
    lemma_trim_start(x, i);
    let y = x.skip(i);
    if d.len() > 0 {
        assert(y =~= d + ws2);
    } else {
        assert(y =~= Seq::<char>::empty());
    }
    let k = d.len() as int;
    assert forall|j: int| k <= j < y.len() implies is_white_space(y[j]) by {
        assert(y[j] == ws2[j - k]);
    }
    if k > 0 {
        assert(y[k - 1] == d.last());
    }
    lemma_trim_end(y, k);
    assert(y.take(k) =~= d);
}


/// From any start up to just after the last `c`, the last piece of the
/// split at `c` is what follows that last `c`.
proof fn lemma_split_from_last(s: Seq<char>, c: char, k: int, start: int)
    requires
        1 <= k <= s.len(),
        s[k - 1] == c,
        forall|j: int| k <= j < s.len() ==> s[j] != c,
        0 <= start <= k,
    ensures
        split_from(s, seq![c], start).len() >= 1,
        split_from(s, seq![c], start).last() == s.subrange(k, s.len() as int),
    decreases k - start,
{
    let pat = seq![c];
    lemma_first_match_bounds(s, pat, start);
    if start == k {
        if let Some(i) = first_match_from(s, pat, start) {
            assert(s.subrange(i, i + 1)[0] == s[i]);
        }
    } else {
        assert(s.subrange(k - 1, k) =~= pat);
        assert(matches_at(s, pat, k - 1));
        let i = first_match_from(s, pat, start)->0;
        assert(s.subrange(i, i + 1)[0] == s[i]);
        assert(i <= k - 1);
        lemma_split_from_last(s, c, k, i + 1);
        let rest = split_from(s, pat, i + 1);
        assert(split_from(s, pat, start) == seq![s.subrange(start, i)] + rest);
    }
}

/// Split at `c`, a text that ends in `c` followed by a piece without `c`
/// has that piece last.
pub proof fn lemma_split_last_piece(a: Seq<char>, c: char, b: Seq<char>)
    requires
        !b.contains(c),
    ensures
        split_pieces(a + seq![c] + b, seq![c]).last() == b,
{
    let s = a + seq![c] + b;
    let k: int = a.len() as int + 1;
    assert(s[k - 1] == c);
    assert forall|j: int| k <= j < s.len() implies s[j] != c by {
        assert(s[j] == b[j - k]);
    }
    lemma_split_from_last(s, c, k, 0);
    assert(s.subrange(k, s.len() as int) =~= b);
}

} // verus!
