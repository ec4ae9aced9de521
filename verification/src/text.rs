//! Character-level text helpers shared by the descriptor codec: whitespace
//! trimming, ASCII case folding, substring search and the single-space
//! splitting and joining used for server part lists.
use vstd::prelude::*;

verus! {

/// XML whitespace.
pub open spec fn is_ws(c: char) -> bool {
    c == ' ' || c == '\t' || c == '\n' || c == '\r'
}

/// Index of the first non-whitespace character, or the length if all
/// characters are whitespace.
pub open spec fn first_nonws(s: Seq<char>) -> int
    decreases s.len(),
{
    if s.len() == 0 {
        0
    } else if is_ws(s[0]) {
        1 + first_nonws(s.drop_first())
    } else {
        0
    }
}

/// One past the index of the last non-whitespace character, or 0 if all
/// characters are whitespace.
pub open spec fn last_nonws(s: Seq<char>) -> int
    decreases s.len(),
{
    if s.len() == 0 {
        0
    } else if is_ws(s.last()) {
        last_nonws(s.drop_last())
    } else {
        s.len() as int
    }
}

/// The text with leading and trailing whitespace removed.
pub open spec fn spec_trim(s: Seq<char>) -> Seq<char> {
    if first_nonws(s) < last_nonws(s) {
        s.subrange(first_nonws(s), last_nonws(s))
    } else {
        Seq::empty()
    }
}

pub proof fn lemma_first_nonws(s: Seq<char>)
    ensures
        0 <= first_nonws(s) <= s.len(),
        forall|j: int| 0 <= j < first_nonws(s) ==> is_ws(s[j]),
        first_nonws(s) < s.len() ==> !is_ws(s[first_nonws(s)]),
    decreases s.len(),
{
    if s.len() > 0 && is_ws(s[0]) {
        lemma_first_nonws(s.drop_first());
        assert forall|j: int| 0 <= j < first_nonws(s) implies is_ws(s[j]) by {
            if j > 0 {
                assert(s.drop_first()[j - 1] == s[j]);
            }
        }
    }
}

pub proof fn lemma_last_nonws(s: Seq<char>)
    ensures
        0 <= last_nonws(s) <= s.len(),
        forall|j: int| last_nonws(s) <= j < s.len() ==> is_ws(s[j]),
        last_nonws(s) > 0 ==> !is_ws(s[last_nonws(s) - 1]),
    decreases s.len(),
{
    if s.len() > 0 && is_ws(s.last()) {
        lemma_last_nonws(s.drop_last());
        assert forall|j: int| last_nonws(s) <= j < s.len() implies is_ws(s[j]) by {
            if j < s.len() - 1 {
                assert(s.drop_last()[j] == s[j]);
            }
        }
    }
}

/// A text that neither starts nor ends with whitespace trims to itself.
pub proof fn lemma_trim_id(s: Seq<char>)
    requires
        s.len() > 0 ==> !is_ws(s[0]) && !is_ws(s.last()),
    ensures
        spec_trim(s) == s,
{
    if s.len() == 0 {
        assert(spec_trim(s) =~= s);
    } else {
        assert(first_nonws(s) == 0);
        assert(last_nonws(s) == s.len());
        assert(spec_trim(s) =~= s);
    }
}

pub fn is_ws_exec(c: char) -> (r: bool)
    ensures
        r == is_ws(c),
{
    c == ' ' || c == '\t' || c == '\n' || c == '\r'
}

/// Trimmed copy of `s`.
pub fn trim_str(s: &str) -> (r: String)
    ensures
        r@ == spec_trim(s@),
{
    proof {
        lemma_first_nonws(s@);
        lemma_last_nonws(s@);
    }
    let n: usize = s.unicode_len();
    let mut lead: usize = 0;
    while lead < n && is_ws_exec(s.get_char(lead))
        invariant
            0 <= lead <= n,
            n == s@.len(),
            lead <= first_nonws(s@),
        decreases n - lead,
    {
        proof {
            lemma_first_nonws(s@);
        }
        lead = lead + 1;
    }
    proof {
        lemma_first_nonws(s@);
        assert(lead == first_nonws(s@));
    }
    let mut tail: usize = n;
    while tail > 0 && is_ws_exec(s.get_char(tail - 1))
        invariant
            0 <= tail <= n,
            n == s@.len(),
            tail >= last_nonws(s@),
        decreases tail,
    {
        proof {
            lemma_last_nonws(s@);
        }
        tail = tail - 1;
    }
    proof {
        lemma_last_nonws(s@);
        assert(tail == last_nonws(s@));
    }
    if lead < tail {
        let sub = s.substring_char(lead, tail);
        String::from_str(sub)
    } else {
        String::new()
    }
}

/// Relies on std's `String::push`: appends one character at the end.
#[verifier::external_body]
pub fn push_char(s: &mut String, c: char)
    ensures
        final(s)@ == old(s)@.push(c),
{
    s.push(c);
}

/// ASCII lowercasing of one character; anything outside `A`..`Z` is kept.
pub open spec fn lower_char(c: char) -> char {
    if 65 <= c as u32 <= 90 {
        (((c as u32) + 32) as u8) as char
    } else {
        c
    }
}

/// ASCII uppercasing of one character; anything outside `a`..`z` is kept.
pub open spec fn upper_char(c: char) -> char {
    if 97 <= c as u32 <= 122 {
        (((c as u32) - 32) as u8) as char
    } else {
        c
    }
}

pub open spec fn lower_seq(s: Seq<char>) -> Seq<char> {
    s.map_values(|c: char| lower_char(c))
}

pub open spec fn upper_seq(s: Seq<char>) -> Seq<char> {
    s.map_values(|c: char| upper_char(c))
}

/// ASCII-lowercased copy of `s`.
pub fn lower_str(s: &str) -> (r: String)
    ensures
        r@ == lower_seq(s@),
{
    let n: usize = s.unicode_len();
    let mut r = String::new();
    let mut i: usize = 0;
    while i < n
        invariant
            0 <= i <= n,
            n == s@.len(),
            r@ == lower_seq(s@.take(i as int)),
        decreases n - i,
    {
        let c = s.get_char(i);
        let cc: u32 = c as u32;
        let lc: char = if 65 <= cc && cc <= 90 {
            ((cc + 32) as u8) as char
        } else {
            c
        };
        push_char(&mut r, lc);
        i = i + 1;
        proof {
            assert(r@ =~= lower_seq(s@.take(i as int)));
        }
    }
    proof {
        assert(s@.take(n as int) =~= s@);
    }
    r
}

/// ASCII-uppercased copy of `s`.
pub fn upper_str(s: &str) -> (r: String)
    ensures
        r@ == upper_seq(s@),
{
    let n: usize = s.unicode_len();
    let mut r = String::new();
    let mut i: usize = 0;
    while i < n
        invariant
            0 <= i <= n,
            n == s@.len(),
            r@ == upper_seq(s@.take(i as int)),
        decreases n - i,
    {
        let c = s.get_char(i);
        let cc: u32 = c as u32;
        let uc: char = if 97 <= cc && cc <= 122 {
            ((cc - 32) as u8) as char
        } else {
            c
        };
        push_char(&mut r, uc);
        i = i + 1;
        proof {
            assert(r@ =~= upper_seq(s@.take(i as int)));
        }
    }
    proof {
        assert(s@.take(n as int) =~= s@);
    }
    r
}

/// Whether `p` occurs in `s` as a contiguous run.
pub open spec fn has_sub(s: Seq<char>, p: Seq<char>) -> bool {
    exists|i: int|
        0 <= i && i + p.len() <= s.len() && (#[trigger] s.subrange(i, i + p.len())) == p
}

/// Substring search; the naive scan is fine at the sizes involved.
pub fn contains_sub(s: &str, p: &str) -> (r: bool)
    ensures
        r == has_sub(s@, p@),
{
    let n: usize = s.unicode_len();
    let m: usize = p.unicode_len();
    if m > n {
        proof {
            assert(!has_sub(s@, p@));
        }
        return false;
    }
    let mut i: usize = 0;
    while i <= n - m
        invariant
            0 <= i <= n - m + 1,
            m <= n,
            n == s@.len(),
            m == p@.len(),
            forall|k: int| 0 <= k < i ==> (#[trigger] s@.subrange(k, k + p@.len())) != p@,
        decreases n + 1 - i,
    {
        let mut j: usize = 0;
        let mut ok: bool = true;
        while j < m
            invariant
                0 <= j <= m,
                i + m <= n,
                n == s@.len(),
                m == p@.len(),
                ok <==> (forall|t: int| 0 <= t < j ==> s@[i + t] == p@[t]),
            decreases m - j,
        {
            if s.get_char(i + j) != p.get_char(j) {
                ok = false;
                j = m;
            } else {
                j = j + 1;
            }
        }
        if ok {
            proof {
                assert(s@.subrange(i as int, i + p@.len()) =~= p@);
            }
            return true;
        }
        proof {
            assert(s@.subrange(i as int, i + p@.len()) != p@) by {
                let w = choose|t: int| 0 <= t < m && s@[i + t] != p@[t];
                assert(s@.subrange(i as int, i + p@.len())[w] != p@[w]);
            }
        }
        i = i + 1;
    }
    proof {
        assert forall|k: int| 0 <= k && k + p@.len() <= s@.len() implies (#[trigger] s@.subrange(
            k,
            k + p@.len(),
        )) != p@ by {
            assert(k < i);
        }
    }
    false
}

/// Index of the first whitespace character, or the length if there is none.
pub open spec fn first_wsc(s: Seq<char>) -> int
    decreases s.len(),
{
    if s.len() == 0 {
        0
    } else if is_ws(s[0]) {
        0
    } else {
        1 + first_wsc(s.drop_first())
    }
}

pub proof fn lemma_first_wsc(s: Seq<char>)
    ensures
        0 <= first_wsc(s) <= s.len(),
        forall|j: int| 0 <= j < first_wsc(s) ==> !is_ws(s[j]),
        first_wsc(s) < s.len() ==> is_ws(s[first_wsc(s)]),
    decreases s.len(),
{
    if s.len() > 0 && !is_ws(s[0]) {
        lemma_first_wsc(s.drop_first());
        assert forall|j: int| 0 <= j < first_wsc(s) implies !is_ws(s[j]) by {
            if j > 0 {
                assert(s.drop_first()[j - 1] == s[j]);
            }
        }
    }
}

pub proof fn lemma_first_nonws_at(s: Seq<char>, k: int)
    requires
        0 <= k <= s.len(),
        forall|j: int| 0 <= j < k ==> is_ws(#[trigger] s[j]),
        k < s.len() ==> !is_ws(s[k]),
    ensures
        first_nonws(s) == k,
{
    lemma_first_nonws(s);
    let f = first_nonws(s);
    if f < k {
        assert(is_ws(s[f]));
    }
    if f > k {
        assert(is_ws(s[k]));
    }
}

pub proof fn lemma_first_wsc_at(s: Seq<char>, k: int)
    requires
        0 <= k < s.len(),
        forall|j: int| 0 <= j < k ==> !is_ws(#[trigger] s[j]),
        is_ws(s[k]),
    ensures
        first_wsc(s) == k,
{
    lemma_first_wsc(s);
    let f = first_wsc(s);
    if f < k {
        assert(!is_ws(s[f]));
    }
    if f > k {
        assert(!is_ws(s[k]));
    }
}

/// Index of the first space, or the length if there is none.
pub open spec fn first_space(s: Seq<char>) -> int
    decreases s.len(),
{
    if s.len() == 0 {
        0
    } else if s[0] == ' ' {
        0
    } else {
        1 + first_space(s.drop_first())
    }
}

pub proof fn lemma_first_space(s: Seq<char>)
    ensures
        0 <= first_space(s) <= s.len(),
        forall|j: int| 0 <= j < first_space(s) ==> s[j] != ' ',
        first_space(s) < s.len() ==> s[first_space(s)] == ' ',
    decreases s.len(),
{
    if s.len() > 0 && s[0] != ' ' {
        lemma_first_space(s.drop_first());
        assert forall|j: int| 0 <= j < first_space(s) implies s[j] != ' ' by {
            if j > 0 {
                assert(s.drop_first()[j - 1] == s[j]);
            }
        }
    }
}

/// Splitting on single spaces: every space is a separator, so doubled spaces
/// produce empty fields.
pub open spec fn split_sp(s: Seq<char>) -> Seq<Seq<char>>
    decreases s.len(),
    via split_sp_decreases
{
    let k = first_space(s);
    if k >= s.len() {
        seq![s]
    } else {
        seq![s.subrange(0, k)] + split_sp(s.subrange(k + 1, s.len() as int))
    }
}

#[via_fn]
proof fn split_sp_decreases(s: Seq<char>) {
    lemma_first_space(s);
}

/// Joining with single spaces; the inverse of `split_sp` on space-free parts.
pub open spec fn join_sp(parts: Seq<Seq<char>>) -> Seq<char>
    decreases parts.len(),
{
    if parts.len() == 0 {
        Seq::empty()
    } else if parts.len() == 1 {
        parts[0]
    } else {
        parts[0] + seq![' '] + join_sp(parts.drop_first())
    }
}

/// Splitting a space-joined list of space-free parts gives the parts back.
pub proof fn lemma_split_join(parts: Seq<Seq<char>>)
    requires
        parts.len() >= 1,
        forall|i: int| 0 <= i < parts.len() ==> !parts[i].contains(' '),
    ensures
        split_sp(join_sp(parts)) == parts,
    decreases parts.len(),
{
    let s = join_sp(parts);
    if parts.len() == 1 {
        assert(forall|j: int| 0 <= j < s.len() ==> s[j] != ' ') by {
            assert(forall|j: int| 0 <= j < parts[0].len() ==> parts[0][j] != ' ');
        }
        lemma_first_space_none(s);
        assert(split_sp(s) =~= seq![s]);
        assert(split_sp(join_sp(parts)) =~= parts);
    } else {
        let head = parts[0];
        let rest = join_sp(parts.drop_first());
        assert(s =~= head + seq![' '] + rest);
        assert(forall|j: int| 0 <= j < head.len() ==> #[trigger] s[j] != ' ') by {
            assert(forall|j: int| 0 <= j < head.len() ==> head[j] != ' ');
            assert(forall|j: int| 0 <= j < head.len() ==> s[j] == head[j]);
        }
        assert(s[head.len() as int] == ' ');
        lemma_first_space_at(s, head.len() as int);
        assert(s.subrange(0, head.len() as int) =~= head);
        assert(s.subrange(head.len() as int + 1, s.len() as int) =~= rest);
        assert forall|i: int| 0 <= i < parts.drop_first().len() implies !parts.drop_first()[i].contains(
            ' ',
        ) by {
            assert(parts.drop_first()[i] == parts[i + 1]);
        }
        lemma_split_join(parts.drop_first());
        assert(split_sp(s) =~= seq![head] + split_sp(rest));
        assert(split_sp(join_sp(parts)) =~= parts);
    }
}

proof fn lemma_first_space_none(s: Seq<char>)
    requires
        forall|j: int| 0 <= j < s.len() ==> s[j] != ' ',
    ensures
        first_space(s) == s.len(),
{
    lemma_first_space(s);
}

proof fn lemma_first_space_at(s: Seq<char>, k: int)
    requires
        0 <= k < s.len(),
        forall|j: int| 0 <= j < k ==> #[trigger] s[j] != ' ',
        s[k] == ' ',
    ensures
        first_space(s) == k,
{
    lemma_first_space(s);
    let f = first_space(s);
    if f < k {
        assert(s[f] != ' ');
        assert(s[f] == ' ');
    }
    if f > k {
        assert(s[k] != ' ');
    }
}

/// A space-joined list keeps the first and last characters of its outer
/// parts at its own ends.
pub proof fn lemma_join_ends(parts: Seq<Seq<char>>)
    requires
        parts.len() >= 1,
        forall|i: int| 0 <= i < parts.len() ==> (#[trigger] parts[i]).len() > 0,
    ensures
        join_sp(parts).len() > 0,
        join_sp(parts)[0] == parts[0][0],
        join_sp(parts).last() == parts.last().last(),
    decreases parts.len(),
{
    if parts.len() == 1 {
    } else {
        let rest = parts.drop_first();
        assert forall|i: int| 0 <= i < rest.len() implies (#[trigger] rest[i]).len() > 0 by {
            assert(rest[i] == parts[i + 1]);
        }
        lemma_join_ends(rest);
        let j = join_sp(parts);
        assert(j == parts[0] + seq![' '] + join_sp(rest));
        assert(j[0] == parts[0][0]);
        assert(j.last() == join_sp(rest).last());
        assert(rest.last() == parts.last());
    }
}

/// Splits on every single space, as `split_sp` describes.
pub fn split_spaces(s: &str) -> (r: Vec<String>)
    ensures
        r.deep_view() == split_sp(s@),
{
    let n: usize = s.unicode_len();
    let mut parts: Vec<String> = Vec::new();
    let mut start: usize = 0;
    let mut i: usize = 0;
    proof {
        assert(s@.subrange(0, n as int) =~= s@);
        assert(parts.deep_view() + split_sp(s@) =~= split_sp(s@));
    }
    while i < n
        invariant
            0 <= start <= i <= n,
            n == s@.len(),
            forall|j: int| start <= j < i ==> s@[j] != ' ',
            split_sp(s@) =~= parts.deep_view() + split_sp(s@.subrange(start as int, n as int)),
        decreases n - i,
    {
        let c = s.get_char(i);
        if c == ' ' {
            let piece = s.substring_char(start, i);
            let ghost old_parts = parts.deep_view();
            let ghost suffix = s@.subrange(start as int, n as int);
            parts.push(String::from_str(piece));
            proof {
                assert(parts.deep_view() =~= old_parts.push(piece@));
                assert(suffix[i - start] == ' ');
                assert(forall|j: int| 0 <= j < i - start ==> #[trigger] suffix[j] != ' ');
                lemma_first_space_at(suffix, i - start);
                assert(suffix.subrange(0, i - start) =~= piece@);
                assert(suffix.subrange(i - start + 1, suffix.len() as int) =~= s@.subrange(
                    i + 1,
                    n as int,
                ));
                assert(split_sp(suffix) =~= seq![piece@] + split_sp(
                    s@.subrange(i + 1, n as int),
                ));
                assert(parts.deep_view() + split_sp(s@.subrange(i + 1, n as int)) =~= old_parts
                    + split_sp(suffix));
            }
            start = i + 1;
        }
        i = i + 1;
    }
    let last_piece = s.substring_char(start, n);
    let ghost old_parts = parts.deep_view();
    parts.push(String::from_str(last_piece));
    proof {
        let suffix = s@.subrange(start as int, n as int);
        assert(forall|j: int| 0 <= j < suffix.len() ==> #[trigger] suffix[j] != ' ') by {
            assert(forall|j: int| start <= j < n ==> s@[j] != ' ');
            assert(forall|j: int| 0 <= j < suffix.len() ==> suffix[j] == s@[start + j]);
        }
        lemma_first_space_none(suffix);
        assert(split_sp(suffix) =~= seq![suffix]);
        assert(last_piece@ == suffix);
        assert(parts.deep_view() =~= old_parts.push(suffix));
        assert(parts.deep_view() =~= old_parts + split_sp(suffix));
    }
    parts
}

/// Joins with single spaces, as `join_sp` describes.
pub fn join_spaces(parts: &Vec<String>) -> (r: String)
    ensures
        r@ == join_sp(parts.deep_view()),
{
    proof {
        assert(parts.deep_view().skip(0) =~= parts.deep_view());
    }
    join_spaces_from(parts, 0)
}

fn join_spaces_from(parts: &Vec<String>, i: usize) -> (r: String)
    requires
        i <= parts.len(),
    ensures
        r@ == join_sp(parts.deep_view().skip(i as int)),
    decreases parts.len() - i,
{
    let n = parts.len();
    if i == n {
        proof {
            assert(parts.deep_view().skip(i as int) =~= Seq::<Seq<char>>::empty());
        }
        String::new()
    } else if i == n - 1 {
        proof {
            assert(parts.deep_view().skip(i as int) =~= seq![parts.deep_view()[i as int]]);
        }
        let mut r = String::new();
        r.append(parts[i].as_str());
        r
    } else {
        let mut r = String::new();
        r.append(parts[i].as_str());
        push_char(&mut r, ' ');
        let rest = join_spaces_from(parts, i + 1);
        r.append(rest.as_str());
        proof {
            let pv = parts.deep_view().skip(i as int);
            assert(pv.len() >= 2);
            assert(pv[0] == parts.deep_view()[i as int]);
            assert(pv.drop_first() =~= parts.deep_view().skip(i + 1));
            assert(r@ =~= join_sp(pv));
        }
        r
    }
}

} // verus!
