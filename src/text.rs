use vstd::prelude::*;
use vstd::string::{StrSliceExecFns, StringSliceAdditionalSpecFns};

verus! {

/// The edit distance between the first `i` characters of `a` and the first
/// `j` characters of `b`: the fewest insertions, deletions and substitutions
/// that turn one into the other.
pub open spec fn edit_distance(a: Seq<char>, b: Seq<char>, i: nat, j: nat) -> nat
    decreases i + j,
{
    if i == 0 {
        j
    } else if j == 0 {
        i
    } else {
        let del = edit_distance(a, b, (i - 1) as nat, j) + 1;
        let ins = edit_distance(a, b, i, (j - 1) as nat) + 1;
        let sub = edit_distance(a, b, (i - 1) as nat, (j - 1) as nat) + if a[i - 1] == b[j - 1] {
            0nat
        } else {
            1nat
        };
        if del <= ins && del <= sub {
            del
        } else if ins <= sub {
            ins
        } else {
            sub
        }
    }
}

/// The Levenshtein distance between two whole character sequences.
pub open spec fn levenshtein(a: Seq<char>, b: Seq<char>) -> nat {
    edit_distance(a, b, a.len(), b.len())
}

pub proof fn lemma_edit_distance_bound(a: Seq<char>, b: Seq<char>, i: nat, j: nat)
    ensures
        edit_distance(a, b, i, j) <= if i <= j {
            j
        } else {
            i
        },
    decreases i + j,
{
    if i > 0 && j > 0 {
        lemma_edit_distance_bound(a, b, (i - 1) as nat, (j - 1) as nat);
    }
}

/// The characters of `s`, one by one.
pub fn chars_of(s: &str) -> (r: Vec<char>)
    ensures
        r@ == s@,
{
    let n = s.unicode_len();
    let mut r: Vec<char> = Vec::new();
    let mut i: usize = 0;
    while i < n
        invariant
            n == s@.len(),
            i <= n,
            r@ == s@.take(i as int),
        decreases n - i,
    {
        r.push(s.get_char(i));
        i = i + 1;
        proof {
            assert(r@ =~= s@.take(i as int));
        }
    }
    proof {
        assert(s@.take(i as int) =~= s@);
    }
    r
}

/// The Levenshtein distance between `a` and `b`, counted in characters. Keeps
/// one row of the distance table, overwritten in place.
pub fn fn_levenshtein_distance(a: &str, b: &str) -> (r: usize)
    requires
        a@.len() < usize::MAX,
        b@.len() < usize::MAX,
    ensures
        r == levenshtein(a@, b@),
{
    let ca = chars_of(a);
    let cb = chars_of(b);
    let la = ca.len();
    let lb = cb.len();
    let ghost sa = a@;
    let ghost sb = b@;
    // row[i] is the distance between the first i characters of `a` and the
    // characters of `b` handled so far.
    let mut row: Vec<usize> = Vec::new();
    let mut i: usize = 0;
    while i <= la
        invariant
            la == sa.len(),
            la < usize::MAX,
            i <= la + 1,
            row@.len() == i,
            forall|k: int| 0 <= k < i ==> row@[k] == edit_distance(sa, sb, k as nat, 0),
        decreases la + 1 - i,
    {
        row.push(i);
        i = i + 1;
    }
    let mut j: usize = 0;
    while j < lb
        invariant
            la == sa.len(),
            lb == sb.len(),
            ca@ == sa,
            cb@ == sb,
            la < usize::MAX,
            lb < usize::MAX,
            j <= lb,
            row@.len() == la + 1,
            forall|k: int| 0 <= k <= la ==> row@[k] == edit_distance(sa, sb, k as nat, j as nat),
        decreases lb - j,
    {
        let mut diag = row[0];
        row.set(0, j + 1);
        let mut i: usize = 1;
        while i <= la
            invariant
                la == sa.len(),
                lb == sb.len(),
                ca@ == sa,
                cb@ == sb,
                la < usize::MAX,
                lb < usize::MAX,
                j < lb,
                1 <= i <= la + 1,
                row@.len() == la + 1,
                diag == edit_distance(sa, sb, (i - 1) as nat, j as nat),
                forall|k: int|
                    0 <= k < i ==> row@[k] == edit_distance(sa, sb, k as nat, (j + 1) as nat),
                forall|k: int|
                    i <= k <= la ==> row@[k] == edit_distance(sa, sb, k as nat, j as nat),
            decreases la + 1 - i,
        {
            proof {
                lemma_edit_distance_bound(sa, sb, i as nat, j as nat);
                lemma_edit_distance_bound(sa, sb, (i - 1) as nat, (j + 1) as nat);
                lemma_edit_distance_bound(sa, sb, (i - 1) as nat, j as nat);
            }
            let up = row[i];
            let left = row[i - 1];
            let del = left + 1;
            let ins = up + 1;
            let sub = if ca[i - 1] == cb[j] {
                diag
            } else {
                diag + 1
            };
            let best = if del <= ins && del <= sub {
                del
            } else if ins <= sub {
                ins
            } else {
                sub
            };
            row.set(i, best);
            diag = up;
            i = i + 1;
        }
        j = j + 1;
    }
    row[la]
}

/// `n` stands in `h` at character position `i`.
pub open spec fn occurs_at(h: Seq<char>, n: Seq<char>, i: int) -> bool {
    0 <= i && i + n.len() <= h.len() && h.subrange(i, i + n.len()) == n
}

/// `i` is the first position where `n` stands in `h`.
pub open spec fn first_occurrence(h: Seq<char>, n: Seq<char>, i: int) -> bool {
    occurs_at(h, n, i) && forall|j: int| 0 <= j < i ==> !occurs_at(h, n, j)
}

/// `i` is the last position where `n` stands in `h`.
pub open spec fn last_occurrence(h: Seq<char>, n: Seq<char>, i: int) -> bool {
    occurs_at(h, n, i) && forall|j: int| i < j ==> !occurs_at(h, n, j)
}

fn matches_at(h: &Vec<char>, n: &Vec<char>, i: usize) -> (r: bool)
    requires
        i + n@.len() <= h@.len(),
    ensures
        r == occurs_at(h@, n@, i as int),
{
    let hl = h.len();
    let mut k: usize = 0;
    while k < n.len()
        invariant
            hl == h@.len(),
            i + n@.len() <= h@.len(),
            k <= n@.len(),
            forall|j: int| 0 <= j < k ==> h@[i + j] == n@[j],
        decreases n@.len() - k,
    {
        if h[i + k] != n[k] {
            proof {
                assert(h@.subrange(i as int, i + n@.len())[k as int] != n@[k as int]);
            }
            return false;
        }
        k = k + 1;
    }
    proof {
        assert(h@.subrange(i as int, i + n@.len()) =~= n@);
    }
    true
}

/// The first position where `n` stands in `h`.
fn find_first(h: &Vec<char>, n: &Vec<char>) -> (r: Option<usize>)
    ensures
        r matches Some(i) ==> occurs_at(h@, n@, i as int) && forall|j: int|
            0 <= j < i ==> !occurs_at(h@, n@, j),
        r is None ==> forall|j: int| !occurs_at(h@, n@, j),
{
    if n.len() > h.len() {
        return None;
    }
    let last = h.len() - n.len();
    let mut i: usize = 0;
    loop
        invariant
            last == h@.len() - n@.len(),
            n@.len() <= h@.len(),
            i <= last,
            forall|j: int| 0 <= j < i ==> !occurs_at(h@, n@, j),
        decreases last - i,
    {
        if matches_at(h, n, i) {
            return Some(i);
        }
        if i == last {
            return None;
        }
        i = i + 1;
    }
}

/// The last position where `n` stands in `h`.
fn find_last(h: &Vec<char>, n: &Vec<char>) -> (r: Option<usize>)
    ensures
        r matches Some(i) ==> occurs_at(h@, n@, i as int) && forall|j: int|
            i < j ==> !occurs_at(h@, n@, j),
        r is None ==> forall|j: int| !occurs_at(h@, n@, j),
{
    if n.len() > h.len() {
        return None;
    }
    let mut i: usize = h.len() - n.len();
    loop
        invariant
            n@.len() <= h@.len(),
            i <= h@.len() - n@.len(),
            forall|j: int| i < j ==> !occurs_at(h@, n@, j),
        decreases i,
    {
        if matches_at(h, n, i) {
            return Some(i);
        }
        if i == 0 {
            return None;
        }
        i = i - 1;
    }
}

/// The first position from `p` on where `sep` stands in `s`, or a position
/// past the end where there is none.
pub open spec fn find_from(s: Seq<char>, sep: Seq<char>, p: int) -> int
    decreases s.len() + 1 - p,
{
    if p < 0 || p + sep.len() > s.len() {
        s.len() + 1int
    } else if occurs_at(s, sep, p) {
        p
    } else {
        find_from(s, sep, p + 1)
    }
}

/// The last position `p` or before where `sep` stands in `s`, or -1.
pub open spec fn rfind_to(s: Seq<char>, sep: Seq<char>, p: int) -> int
    decreases p + 1,
{
    if p < 0 {
        -1
    } else if occurs_at(s, sep, p) {
        p
    } else {
        rfind_to(s, sep, p - 1)
    }
}

/// The pieces of `s` from `start` on, cut at each occurrence of a non-empty
/// `sep`, searching left to right.
pub open spec fn split_from(s: Seq<char>, sep: Seq<char>, start: int) -> Seq<Seq<char>>
    decreases s.len() + 1 - start,
{
    if sep.len() == 0 || start < 0 || start > s.len() {
        Seq::empty()
    } else {
        let i = find_from(s, sep, start);
        if start <= i && i + sep.len() <= s.len() {
            seq![s.subrange(start, i)] + split_from(s, sep, i + sep.len())
        } else {
            seq![s.subrange(start, s.len() as int)]
        }
    }
}

/// The pieces of `s` before `end`, cut at each occurrence of a non-empty
/// `sep`, searching right to left, last piece first.
pub open spec fn rsplit_to(s: Seq<char>, sep: Seq<char>, end: int) -> Seq<Seq<char>>
    decreases end + 1,
{
    if sep.len() == 0 || end < 0 || end > s.len() {
        Seq::empty()
    } else {
        let i = rfind_to(s, sep, end - sep.len());
        if 0 <= i && i + sep.len() <= end {
            seq![s.subrange(i + sep.len(), end)] + rsplit_to(s, sep, i)
        } else {
            seq![s.subrange(0, end)]
        }
    }
}

/// Cutting with the empty separator: an empty piece, each character, and
/// another empty piece.
pub open spec fn split_empty(s: Seq<char>) -> Seq<Seq<char>> {
    Seq::new(
        s.len() + 2,
        |k: int|
            if 1 <= k <= s.len() {
                seq![s[k - 1]]
            } else {
                Seq::empty()
            },
    )
}

/// The pieces of `s` cut at `sep`, left to right.
pub open spec fn split_spec(s: Seq<char>, sep: Seq<char>) -> Seq<Seq<char>> {
    if sep.len() == 0 {
        split_empty(s)
    } else {
        split_from(s, sep, 0)
    }
}

/// The pieces of `s` cut at `sep`, right to left.
pub open spec fn rsplit_spec(s: Seq<char>, sep: Seq<char>) -> Seq<Seq<char>> {
    if sep.len() == 0 {
        split_empty(s).reverse()
    } else {
        rsplit_to(s, sep, s.len() as int)
    }
}

pub open spec fn texts(v: Seq<String>) -> Seq<Seq<char>> {
    v.map_values(|x: String| x@)
}

fn find_from_exec(h: &Vec<char>, n: &Vec<char>, start: usize) -> (r: usize)
    requires
        n@.len() > 0,
        start <= h@.len(),
        h@.len() < usize::MAX,
    ensures
        r == find_from(h@, n@, start as int),
{
    let mut p: usize = start;
    loop
        invariant
            n@.len() > 0,
            h@.len() < usize::MAX,
            start <= p <= h@.len(),
            find_from(h@, n@, start as int) == find_from(h@, n@, p as int),
        decreases h@.len() - p,
    {
        if n.len() > h.len() - p {
            return h.len() + 1;
        }
        if matches_at(h, n, p) {
            return p;
        }
        p = p + 1;
    }
}

fn rfind_to_exec(h: &Vec<char>, n: &Vec<char>, end: usize) -> (r: isize)
    requires
        n@.len() > 0,
        end <= h@.len(),
        h@.len() < isize::MAX,
    ensures
        r == rfind_to(h@, n@, end - n@.len()),
{
    if n.len() > end {
        return -1;
    }
    let mut p: usize = end - n.len();
    loop
        invariant
            n@.len() > 0,
            p + n@.len() <= end <= h@.len(),
            h@.len() < isize::MAX,
            rfind_to(h@, n@, end - n@.len()) == rfind_to(h@, n@, p as int),
        decreases p,
    {
        if matches_at(h, n, p) {
            return p as isize;
        }
        if p == 0 {
            proof {
                assert(rfind_to(h@, n@, -1) == -1);
            }
            return -1;
        }
        p = p - 1;
    }
}

fn split_empty_exec(s: &str, forward: bool) -> (r: Vec<String>)
    requires
        s@.len() < usize::MAX - 2,
    ensures
        forward ==> texts(r@) == split_empty(s@),
        !forward ==> texts(r@) == split_empty(s@).reverse(),
{
    let n = s.unicode_len();
    let ghost want = if forward {
        split_empty(s@)
    } else {
        split_empty(s@).reverse()
    };
    let mut r: Vec<String> = Vec::new();
    let mut k: usize = 0;
    while k < n + 2
        invariant
            n == s@.len(),
            n < usize::MAX - 2,
            k <= n + 2,
            want == if forward {
                split_empty(s@)
            } else {
                split_empty(s@).reverse()
            },
            texts(r@) == want.take(k as int),
        decreases n + 2 - k,
    {
        let j = if forward {
            k
        } else {
            n + 1 - k
        };
        let piece = if 1 <= j && j <= n {
            s.substring_char(j - 1, j).to_string()
        } else {
            String::new()
        };
        proof {
            if 1 <= j <= n {
                assert(piece@ =~= seq![s@[j - 1]]);
            }
            assert(piece@ =~= split_empty(s@)[j as int]);
        }
        let ghost before = r@;
        r.push(piece);
        proof {
            assert(want[k as int] == split_empty(s@)[j as int]);
            assert(texts(r@) =~= texts(before).push(piece@));
            assert(want.take(k as int + 1) =~= want.take(k as int).push(want[k as int]));
        }
        k = k + 1;
    }
    proof {
        assert(want.take(k as int) =~= want);
    }
    r
}

/// `s` cut at every occurrence of `sep`, left to right.
pub fn fn_split(s: &str, sep: &str) -> (r: Vec<String>)
    requires
        s@.len() < usize::MAX - 2,
    ensures
        texts(r@) == split_spec(s@, sep@),
{
    let h = chars_of(s);
    let n = chars_of(sep);
    if n.len() == 0 {
        return split_empty_exec(s, true);
    }
    let mut r: Vec<String> = Vec::new();
    let mut start: usize = 0;
    loop
        invariant
            h@ == s@,
            n@ == sep@,
            n@.len() > 0,
            start <= h@.len(),
            h@.len() < usize::MAX - 2,
            texts(r@) + split_from(s@, sep@, start as int) == split_from(s@, sep@, 0),
        decreases h@.len() + 1 - start,
    {
        let i = find_from_exec(&h, &n, start);
        if start <= i && i <= h.len() && n.len() <= h.len() - i {
            let piece = s.substring_char(start, i).to_string();
            let ghost before = r@;
            r.push(piece);
            proof {
                assert(texts(r@) =~= texts(before).push(s@.subrange(start as int, i as int)));
                assert(texts(r@) + split_from(s@, sep@, i + n@.len()) =~= texts(before)
                    + split_from(s@, sep@, start as int));
            }
            start = i + n.len();
        } else {
            let piece = s.substring_char(start, h.len()).to_string();
            let ghost before = r@;
            r.push(piece);
            proof {
                assert(texts(r@) =~= texts(before) + split_from(s@, sep@, start as int));
            }
            return r;
        }
    }
}

/// `s` cut at every occurrence of `sep`, right to left, last piece first.
pub fn fn_rsplit(s: &str, sep: &str) -> (r: Vec<String>)
    requires
        s@.len() < usize::MAX - 2,
        s@.len() < isize::MAX,
    ensures
        texts(r@) == rsplit_spec(s@, sep@),
{
    let h = chars_of(s);
    let n = chars_of(sep);
    if n.len() == 0 {
        return split_empty_exec(s, false);
    }
    let mut r: Vec<String> = Vec::new();
    let mut end: usize = h.len();
    loop
        invariant
            h@ == s@,
            n@ == sep@,
            n@.len() > 0,
            end <= h@.len(),
            h@.len() < isize::MAX,
            texts(r@) + rsplit_to(s@, sep@, end as int) == rsplit_to(s@, sep@, s@.len() as int),
        decreases end + 1,
    {
        let i = rfind_to_exec(&h, &n, end);
        if 0 <= i && (i as usize) + n.len() <= end {
            let iu = i as usize;
            let piece = s.substring_char(iu + n.len(), end).to_string();
            let ghost before = r@;
            r.push(piece);
            proof {
                assert(texts(r@) =~= texts(before).push(
                    s@.subrange(iu + n@.len(), end as int),
                ));
                assert(texts(r@) + rsplit_to(s@, sep@, iu as int) =~= texts(before) + rsplit_to(
                    s@,
                    sep@,
                    end as int,
                ));
            }
            end = iu;
        } else {
            let piece = s.substring_char(0, end).to_string();
            let ghost before = r@;
            r.push(piece);
            proof {
                assert(texts(r@) =~= texts(before) + rsplit_to(s@, sep@, end as int));
            }
            return r;
        }
    }
}

/// A line as `lines` gives it: without the carriage return that precedes
/// its line feed.
pub open spec fn line_text(piece: Seq<char>, ended: bool) -> Seq<char> {
    if ended && piece.len() > 0 && piece.last() == '\r' {
        piece.drop_last()
    } else {
        piece
    }
}

/// The lines of `s`: the pieces between line feeds, each without the
/// carriage return before its line feed, and no empty line after a final
/// line feed.
pub open spec fn lines_spec(s: Seq<char>) -> Seq<Seq<char>> {
    let parts = split_from(s, seq!['\n'], 0);
    let kept = if parts.len() > 0 && parts.last().len() == 0 {
        (parts.len() - 1) as int
    } else {
        parts.len() as int
    };
    Seq::new(kept as nat, |k: int| line_text(parts[k], k < parts.len() - 1))
}

pub proof fn lemma_split_from_nonempty(s: Seq<char>, sep: Seq<char>, start: int)
    requires
        sep.len() > 0,
        0 <= start <= s.len(),
    ensures
        split_from(s, sep, start).len() > 0,
    decreases s.len() + 1 - start,
{
}

/// The lines of `s`.
pub fn fn_lines(s: &str) -> (r: Vec<String>)
    requires
        s@.len() < usize::MAX - 2,
    ensures
        texts(r@) == lines_spec(s@),
{
    let parts = fn_split(s, "\n");
    proof {
        reveal_strlit("\n");
        assert("\n"@ =~= seq!['\n']);
        lemma_split_from_nonempty(s@, seq!['\n'], 0);
    }
    let ghost ps = texts(parts@);
    let n = parts.len();
    let last_empty = parts[n - 1].as_str().unicode_len() == 0;
    let kept = if last_empty {
        n - 1
    } else {
        n
    };
    let mut r: Vec<String> = Vec::new();
    let mut k: usize = 0;
    while k < kept
        invariant
            ps == texts(parts@),
            ps == split_from(s@, seq!['\n'], 0),
            n == ps.len(),
            kept <= n,
            kept == lines_spec(s@).len(),
            k <= kept,
            texts(r@) == lines_spec(s@).take(k as int),
        decreases kept - k,
    {
        let p = parts[k].as_str();
        let m = p.unicode_len();
        let line = if k + 1 < n && m > 0 && p.get_char(m - 1) == '\r' {
            p.substring_char(0, m - 1).to_string()
        } else {
            p.to_string()
        };
        proof {
            assert(ps[k as int] == parts@[k as int]@);
            if k + 1 < n && m > 0 && p@[m - 1] == '\r' {
                assert(line@ =~= ps[k as int].drop_last());
            }
            assert(line@ == lines_spec(s@)[k as int]);
        }
        let ghost before = r@;
        r.push(line);
        proof {
            assert(texts(r@) =~= texts(before).push(line@));
            assert(lines_spec(s@).take(k as int + 1) =~= lines_spec(s@).take(k as int).push(
                lines_spec(s@)[k as int],
            ));
        }
        k = k + 1;
    }
    proof {
        assert(lines_spec(s@).take(k as int) =~= lines_spec(s@));
    }
    r
}

/// Unicode's Alphabetic or Numeric property.
pub uninterp spec fn alphanumeric(c: char) -> bool;

/// Relies on char::is_alphanumeric.
#[verifier::external_body]
fn char_is_alphanumeric(c: char) -> (r: bool)
    ensures
        r == alphanumeric(c),
{
    c.is_alphanumeric()
}

/// Reading `s` left to right: the words closed so far, and the start of the
/// word still open (equal to the length where none is).
pub open spec fn ws_scan(s: Seq<char>) -> (Seq<Seq<char>>, int)
    decreases s.len(),
{
    if s.len() == 0 {
        (Seq::empty(), 0)
    } else {
        let prev = ws_scan(s.drop_last());
        let n = s.len() - 1;
        if white_space(s.last()) {
            (if prev.1 < n {
                prev.0.push(s.subrange(prev.1, n))
            } else {
                prev.0
            }, s.len() as int)
        } else {
            (prev.0, prev.1)
        }
    }
}

/// The words of `s`: its longest runs of characters other than whitespace.
pub open spec fn ws_words(s: Seq<char>) -> Seq<Seq<char>> {
    let sc = ws_scan(s);
    if sc.1 < s.len() {
        sc.0.push(s.subrange(sc.1, s.len() as int))
    } else {
        sc.0
    }
}

pub open spec fn all_alphanumeric(w: Seq<char>) -> bool {
    forall|i: int| 0 <= i < w.len() ==> alphanumeric(#[trigger] w[i])
}

/// The words of `s` made of letters and digits only, in order.
pub open spec fn plain_words(s: Seq<char>) -> Seq<Seq<char>> {
    ws_words(s).filter(|w: Seq<char>| all_alphanumeric(w))
}

fn is_plain_word(cs: &Vec<char>, from: usize, to: usize) -> (r: bool)
    requires
        from <= to <= cs@.len(),
    ensures
        r == all_alphanumeric(cs@.subrange(from as int, to as int)),
{
    let mut i: usize = from;
    while i < to
        invariant
            from <= i <= to <= cs@.len(),
            forall|j: int| from <= j < i ==> alphanumeric(#[trigger] cs@[j]),
        decreases to - i,
    {
        if !char_is_alphanumeric(cs[i]) {
            proof {
                assert(cs@.subrange(from as int, to as int)[i - from] == cs@[i as int]);
            }
            return false;
        }
        i = i + 1;
    }
    proof {
        assert forall|j: int| 0 <= j < to - from implies alphanumeric(
            #[trigger] cs@.subrange(from as int, to as int)[j],
        ) by {
            assert(cs@.subrange(from as int, to as int)[j] == cs@[from + j]);
        }
    }
    true
}

proof fn lemma_ws_scan_bound(s: Seq<char>)
    ensures
        0 <= ws_scan(s).1 <= s.len(),
    decreases s.len(),
{
    if s.len() > 0 {
        lemma_ws_scan_bound(s.drop_last());
    }
}

/// The whitespace-separated words of `s` that are made of letters and
/// digits only.
pub fn tokenize_words(s: &str) -> (r: Vec<String>)
    ensures
        texts(r@) == plain_words(s@),
{
    let cs = chars_of(s);
    let n = cs.len();
    let ghost keep = |w: Seq<char>| all_alphanumeric(w);
    let mut r: Vec<String> = Vec::new();
    let mut start: usize = 0;
    let mut i: usize = 0;
    while i < n
        invariant
            cs@ == s@,
            n == s@.len(),
            i <= n,
            start <= i,
            ws_scan(s@.take(i as int)).1 == start,
            texts(r@) == ws_scan(s@.take(i as int)).0.filter(keep),
            keep == (|w: Seq<char>| all_alphanumeric(w)),
        decreases n - i,
    {
        let ghost t = s@.take(i as int + 1);
        proof {
            reveal(Seq::filter);
            assert(t.drop_last() =~= s@.take(i as int));
            assert(t.last() == s@[i as int]);
        }
        if char_is_whitespace(cs[i]) {
            if start < i {
                let ghost w = s@.subrange(start as int, i as int);
                let ghost before = r@;
                let ghost prev = ws_scan(s@.take(i as int)).0;
                proof {
                    assert(t.subrange(start as int, i as int) =~= w);
                    assert(prev.push(w).drop_last() =~= prev);
                }
                if is_plain_word(&cs, start, i) {
                    r.push(s.substring_char(start, i).to_string());
                    proof {
                        assert(texts(r@) =~= texts(before).push(w));
                    }
                }
            }
            start = i + 1;
        }
        i = i + 1;
    }
    proof {
        assert(s@.take(i as int) =~= s@);
        lemma_ws_scan_bound(s@);
    }
    if start < n {
        let ghost w = s@.subrange(start as int, n as int);
        let ghost prev = ws_scan(s@).0;
        let ghost before = r@;
        proof {
            reveal(Seq::filter);
            assert(prev.push(w).drop_last() =~= prev);
        }
        if is_plain_word(&cs, start, n) {
            r.push(s.substring_char(start, n).to_string());
            proof {
                assert(texts(r@) =~= texts(before).push(w));
            }
        }
    }
    r
}

/// The number of characters of `s`.
pub fn fn_count_chars(s: &str) -> (r: usize)
    ensures
        r == s@.len(),
{
    s.unicode_len()
}

/// `s` begins with `prefix`.
pub fn fn_starts_with(s: &str, prefix: &str) -> (r: bool)
    ensures
        r == occurs_at(s@, prefix@, 0),
{
    let h = chars_of(s);
    let n = chars_of(prefix);
    if n.len() > h.len() {
        false
    } else {
        matches_at(&h, &n, 0)
    }
}

/// `s` ends with `suffix`.
pub fn fn_ends_with(s: &str, suffix: &str) -> (r: bool)
    ensures
        r == occurs_at(s@, suffix@, s@.len() - suffix@.len()),
{
    let h = chars_of(s);
    let n = chars_of(suffix);
    if n.len() > h.len() {
        false
    } else {
        matches_at(&h, &n, h.len() - n.len())
    }
}

/// `needle` stands somewhere in `s`; the empty needle stands everywhere.
pub fn fn_contains(s: &str, needle: &str) -> (r: bool)
    ensures
        r == exists|i: int| occurs_at(s@, needle@, i),
{
    let h = chars_of(s);
    let n = chars_of(needle);
    match find_first(&h, &n) {
        Some(i) => {
            proof {
                assert(occurs_at(s@, needle@, i as int));
            }
            true
        },
        None => false,
    }
}

/// Splits `s` around the first occurrence of `sep`.
pub fn fn_split_once(s: &str, sep: &str) -> (r: Option<(String, String)>)
    ensures
        r matches Some(p) ==> exists|i: int|
            #[trigger] first_occurrence(s@, sep@, i) && p.0@ == s@.subrange(0, i) && p.1@
                == s@.subrange(i + sep@.len(), s@.len() as int),
        r is None ==> forall|j: int| !occurs_at(s@, sep@, j),
{
    let h = chars_of(s);
    let n = chars_of(sep);
    match find_first(&h, &n) {
        Some(i) => {
            let hl = h.len();
            proof {
                assert(i + n@.len() <= hl);
            }
            let a = s.substring_char(0, i).to_string();
            let b = s.substring_char(i + n.len(), h.len()).to_string();
            proof {
                assert(first_occurrence(s@, sep@, i as int));
            }
            Some((a, b))
        },
        None => None,
    }
}

/// Splits `s` around the last occurrence of `sep`.
pub fn fn_rsplit_once(s: &str, sep: &str) -> (r: Option<(String, String)>)
    ensures
        r matches Some(p) ==> exists|i: int|
            #[trigger] last_occurrence(s@, sep@, i) && p.0@ == s@.subrange(0, i) && p.1@
                == s@.subrange(i + sep@.len(), s@.len() as int),
        r is None ==> forall|j: int| !occurs_at(s@, sep@, j),
{
    let h = chars_of(s);
    let n = chars_of(sep);
    match find_last(&h, &n) {
        Some(i) => {
            let hl = h.len();
            proof {
                assert(i + n@.len() <= hl);
            }
            let a = s.substring_char(0, i).to_string();
            let b = s.substring_char(i + n.len(), h.len()).to_string();
            proof {
                assert(last_occurrence(s@, sep@, i as int));
            }
            Some((a, b))
        },
        None => None,
    }
}

/// `s` without its leading `prefix`, where it has one.
pub fn fn_strip_prefix(s: &str, prefix: &str) -> (r: Option<String>)
    ensures
        r matches Some(t) ==> occurs_at(s@, prefix@, 0) && t@ == s@.subrange(
            prefix@.len() as int,
            s@.len() as int,
        ),
        r is None ==> !occurs_at(s@, prefix@, 0),
{
    let h = chars_of(s);
    let n = chars_of(prefix);
    if n.len() <= h.len() && matches_at(&h, &n, 0) {
        Some(s.substring_char(n.len(), h.len()).to_string())
    } else {
        None
    }
}

/// `s` without its trailing `suffix`, where it has one.
pub fn fn_strip_suffix(s: &str, suffix: &str) -> (r: Option<String>)
    ensures
        r matches Some(t) ==> occurs_at(s@, suffix@, s@.len() - suffix@.len()) && t@
            == s@.subrange(0, s@.len() - suffix@.len()),
        r is None ==> !occurs_at(s@, suffix@, s@.len() - suffix@.len()),
{
    let h = chars_of(s);
    let n = chars_of(suffix);
    if n.len() <= h.len() && matches_at(&h, &n, h.len() - n.len()) {
        Some(s.substring_char(0, h.len() - n.len()).to_string())
    } else {
        None
    }
}

pub open spec fn clip(x: int, n: int) -> int {
    if x <= n {
        x
    } else {
        n
    }
}

/// The `len` characters of `s` from character position `start`, as many as
/// there are.
pub fn fn_substring(s: &str, start: usize, len: usize) -> (r: String)
    ensures
        r@ == s@.subrange(clip(start as int, s@.len() as int), clip(start + len, s@.len() as int)),
{
    let n = s.unicode_len();
    let from = if start <= n {
        start
    } else {
        n
    };
    let to = if len <= n - from {
        from + len
    } else {
        n
    };
    s.substring_char(from, to).to_string()
}

/// Unicode's White_Space property.
pub uninterp spec fn white_space(c: char) -> bool;

/// Unicode's Alphabetic property.
pub uninterp spec fn alphabetic(c: char) -> bool;

/// Unicode's Uppercase property.
pub uninterp spec fn uppercase(c: char) -> bool;

/// Unicode's Lowercase property.
pub uninterp spec fn lowercase(c: char) -> bool;

/// Relies on char::is_whitespace.
#[verifier::external_body]
pub(crate) fn char_is_whitespace(c: char) -> (r: bool)
    ensures
        r == white_space(c),
{
    c.is_whitespace()
}

/// Relies on char::is_alphabetic.
#[verifier::external_body]
fn char_is_alphabetic(c: char) -> (r: bool)
    ensures
        r == alphabetic(c),
{
    c.is_alphabetic()
}

/// Relies on char::is_uppercase.
#[verifier::external_body]
fn char_is_uppercase(c: char) -> (r: bool)
    ensures
        r == uppercase(c),
{
    c.is_uppercase()
}

/// Relies on char::is_lowercase.
#[verifier::external_body]
fn char_is_lowercase(c: char) -> (r: bool)
    ensures
        r == lowercase(c),
{
    c.is_lowercase()
}

/// How many characters of `s` satisfy `p`.
pub open spec fn count_where(s: Seq<char>, p: spec_fn(char) -> bool) -> nat
    decreases s.len(),
{
    if s.len() == 0 {
        0
    } else {
        count_where(s.drop_last(), p) + if p(s.last()) {
            1nat
        } else {
            0nat
        }
    }
}

pub open spec fn is_space_char(c: char) -> bool {
    white_space(c)
}

pub open spec fn is_upper_letter(c: char) -> bool {
    alphabetic(c) && uppercase(c)
}

pub open spec fn is_lower_letter(c: char) -> bool {
    alphabetic(c) && lowercase(c)
}

/// A letter that is not uppercase.
pub open spec fn is_non_upper_letter(c: char) -> bool {
    alphabetic(c) && !uppercase(c)
}

/// A letter that is not lowercase.
pub open spec fn is_non_lower_letter(c: char) -> bool {
    alphabetic(c) && !lowercase(c)
}

pub open spec fn is_ascii_digit(c: char) -> bool {
    '0' <= c && c <= '9'
}

proof fn lemma_count_step(s: Seq<char>, i: int, p: spec_fn(char) -> bool)
    requires
        0 <= i < s.len(),
    ensures
        count_where(s.take(i + 1), p) == count_where(s.take(i), p) + if p(s[i]) {
            1nat
        } else {
            0nat
        },
{
    assert(s.take(i + 1).drop_last() =~= s.take(i));
}

/// The characters of `s` that are whitespace.
pub fn fn_count_spaces(s: &str) -> (r: usize)
    ensures
        r == count_where(s@, |c: char| is_space_char(c)),
{
    let cs = chars_of(s);
    let mut n: usize = 0;
    let mut i: usize = 0;
    while i < cs.len()
        invariant
            cs@ == s@,
            i <= cs@.len(),
            n <= i,
            n == count_where(s@.take(i as int), |c: char| is_space_char(c)),
        decreases cs@.len() - i,
    {
        proof {
            lemma_count_step(s@, i as int, |c: char| is_space_char(c));
        }
        if char_is_whitespace(cs[i]) {
            n = n + 1;
        }
        i = i + 1;
    }
    proof {
        assert(s@.take(i as int) =~= s@);
    }
    n
}

/// The uppercase letters of `s`.
pub fn fn_count_uppercase(s: &str) -> (r: usize)
    ensures
        r == count_where(s@, |c: char| is_upper_letter(c)),
{
    let cs = chars_of(s);
    let mut n: usize = 0;
    let mut i: usize = 0;
    while i < cs.len()
        invariant
            cs@ == s@,
            i <= cs@.len(),
            n <= i,
            n == count_where(s@.take(i as int), |c: char| is_upper_letter(c)),
        decreases cs@.len() - i,
    {
        proof {
            lemma_count_step(s@, i as int, |c: char| is_upper_letter(c));
        }
        if char_is_alphabetic(cs[i]) && char_is_uppercase(cs[i]) {
            n = n + 1;
        }
        i = i + 1;
    }
    proof {
        assert(s@.take(i as int) =~= s@);
    }
    n
}

/// The lowercase letters of `s`.
pub fn fn_count_lowercase(s: &str) -> (r: usize)
    ensures
        r == count_where(s@, |c: char| is_lower_letter(c)),
{
    let cs = chars_of(s);
    let mut n: usize = 0;
    let mut i: usize = 0;
    while i < cs.len()
        invariant
            cs@ == s@,
            i <= cs@.len(),
            n <= i,
            n == count_where(s@.take(i as int), |c: char| is_lower_letter(c)),
        decreases cs@.len() - i,
    {
        proof {
            lemma_count_step(s@, i as int, |c: char| is_lower_letter(c));
        }
        if char_is_alphabetic(cs[i]) && char_is_lowercase(cs[i]) {
            n = n + 1;
        }
        i = i + 1;
    }
    proof {
        assert(s@.take(i as int) =~= s@);
    }
    n
}

/// Every letter of `s` is uppercase; other characters do not count.
pub fn fn_is_uppercase(s: &str) -> (r: bool)
    ensures
        r == forall|i: int| 0 <= i < s@.len() ==> !is_non_upper_letter(#[trigger] s@[i]),
{
    let cs = chars_of(s);
    let mut i: usize = 0;
    while i < cs.len()
        invariant
            cs@ == s@,
            i <= cs@.len(),
            forall|j: int| 0 <= j < i ==> !is_non_upper_letter(#[trigger] s@[j]),
        decreases cs@.len() - i,
    {
        if char_is_alphabetic(cs[i]) && !char_is_uppercase(cs[i]) {
            proof {
                assert(is_non_upper_letter(s@[i as int]));
            }
            return false;
        }
        i = i + 1;
    }
    true
}

/// Every letter of `s` is lowercase; other characters do not count.
pub fn fn_is_lowercase(s: &str) -> (r: bool)
    ensures
        r == forall|i: int| 0 <= i < s@.len() ==> !is_non_lower_letter(#[trigger] s@[i]),
{
    let cs = chars_of(s);
    let mut i: usize = 0;
    while i < cs.len()
        invariant
            cs@ == s@,
            i <= cs@.len(),
            forall|j: int| 0 <= j < i ==> !is_non_lower_letter(#[trigger] s@[j]),
        decreases cs@.len() - i,
    {
        if char_is_alphabetic(cs[i]) && !char_is_lowercase(cs[i]) {
            proof {
                assert(is_non_lower_letter(s@[i as int]));
            }
            return false;
        }
        i = i + 1;
    }
    true
}

/// `s` holds an ASCII digit.
pub fn fn_has_digits(s: &str) -> (r: bool)
    ensures
        r == exists|i: int| 0 <= i < s@.len() && is_ascii_digit(#[trigger] s@[i]),
{
    let cs = chars_of(s);
    let mut i: usize = 0;
    while i < cs.len()
        invariant
            cs@ == s@,
            i <= cs@.len(),
            forall|j: int| 0 <= j < i ==> !is_ascii_digit(#[trigger] s@[j]),
        decreases cs@.len() - i,
    {
        if '0' <= cs[i] && cs[i] <= '9' {
            proof {
                assert(is_ascii_digit(s@[i as int]));
            }
            return true;
        }
        i = i + 1;
    }
    false
}

/// The length of `s` in bytes of UTF-8.
pub fn fn_len(s: &str) -> (r: usize)
    ensures
        r == s.spec_bytes().len(),
{
    s.as_bytes().len()
}

/// Two characters that are equal once ASCII letters are folded to one case.
pub open spec fn ascii_fold_eq(a: char, b: char) -> bool {
    ||| a == b
    ||| ('A' <= a <= 'Z' && b as u32 == a as u32 + 32)
    ||| ('A' <= b <= 'Z' && a as u32 == b as u32 + 32)
}

/// Equal texts once ASCII letters are folded to one case.
pub open spec fn eq_ignore_ascii_case(a: Seq<char>, b: Seq<char>) -> bool {
    a.len() == b.len() && forall|i: int| 0 <= i < a.len() ==> ascii_fold_eq(#[trigger] a[i], b[i])
}

fn chars_fold_eq(a: char, b: char) -> (r: bool)
    ensures
        r == ascii_fold_eq(a, b),
{
    let x = a as u32;
    let y = b as u32;
    x == y || ('A' <= a && a <= 'Z' && y == x + 32) || ('A' <= b && b <= 'Z' && x == y + 32)
}

/// `a` and `b` are equal up to the case of ASCII letters.
pub fn fn_eq_ignore_case(a: &str, b: &str) -> (r: bool)
    ensures
        r == eq_ignore_ascii_case(a@, b@),
{
    let ca = chars_of(a);
    let cb = chars_of(b);
    if ca.len() != cb.len() {
        return false;
    }
    let mut i: usize = 0;
    while i < ca.len()
        invariant
            ca@ == a@,
            cb@ == b@,
            ca@.len() == cb@.len(),
            i <= ca@.len(),
            forall|j: int| 0 <= j < i ==> ascii_fold_eq(#[trigger] a@[j], b@[j]),
        decreases ca@.len() - i,
    {
        if !chars_fold_eq(ca[i], cb[i]) {
            return false;
        }
        i = i + 1;
    }
    true
}

/// Some item of `items` equals `needle` up to the case of ASCII letters.
pub fn fn_list_contains_ignore_case(items: &Vec<String>, needle: &str) -> (r: bool)
    ensures
        r == exists|i: int| 0 <= i < items@.len() && eq_ignore_ascii_case(#[trigger] items@[i]@, needle@),
{
    let mut i: usize = 0;
    while i < items.len()
        invariant
            i <= items@.len(),
            forall|j: int| 0 <= j < i ==> !eq_ignore_ascii_case(#[trigger] items@[j]@, needle@),
        decreases items@.len() - i,
    {
        if fn_eq_ignore_case(items[i].as_str(), needle) {
            return true;
        }
        i = i + 1;
    }
    false
}

/// The text that Unicode's default lowercase mapping makes of a text.
pub uninterp spec fn lower_of(s: Seq<char>) -> Seq<char>;

/// Relies on str::to_lowercase: the result depends on the characters alone.
#[verifier::external_body]
fn to_lowercase(s: &str) -> (r: String)
    ensures
        r@ == lower_of(s@),
{
    s.to_lowercase()
}

/// `needle` stands in `s` once both are lowercased.
pub fn fn_contains_ignore_case(s: &str, needle: &str) -> (r: bool)
    ensures
        r == exists|i: int| occurs_at(lower_of(s@), lower_of(needle@), i),
{
    let ls = to_lowercase(s);
    let ln = to_lowercase(needle);
    fn_contains(ls.as_str(), ln.as_str())
}

/// `s` in lowercase.
pub fn fn_to_lowercase(s: &str) -> (r: String)
    ensures
        r@ == lower_of(s@),
{
    to_lowercase(s)
}

/// The text that Unicode's default uppercase mapping makes of a text.
pub uninterp spec fn upper_of(s: Seq<char>) -> Seq<char>;

/// Relies on str::to_uppercase: the result depends on the characters alone.
#[verifier::external_body]
fn to_uppercase(s: &str) -> (r: String)
    ensures
        r@ == upper_of(s@),
{
    s.to_uppercase()
}

/// `s` in uppercase.
pub fn fn_to_uppercase(s: &str) -> (r: String)
    ensures
        r@ == upper_of(s@),
{
    to_uppercase(s)
}

/// What the tokenizer is asked to extract.
#[derive(Clone, Copy, Debug, PartialEq, Eq, Structural)]
pub enum TokenizeMode {
    /// The text of an HTML document, as tokens.
    Html,
    /// Whitespace-separated words made of letters and digits only.
    Words,
    /// Typed tokens of the kinds that the flags select.
    Typed { urls: bool, urls_without_scheme: bool, emails: bool },
}

/// The mode that a tokenizer name selects, if it names one.
pub open spec fn tokenize_mode_spec(name: Seq<char>) -> Option<TokenizeMode> {
    if name == "html"@ {
        Some(TokenizeMode::Html)
    } else if name == "words"@ {
        Some(TokenizeMode::Words)
    } else if name == "uri"@ || name == "url"@ {
        Some(TokenizeMode::Typed { urls: true, urls_without_scheme: true, emails: true })
    } else if name == "uri_strict"@ || name == "url_strict"@ {
        Some(TokenizeMode::Typed { urls: true, urls_without_scheme: false, emails: false })
    } else if name == "email"@ {
        Some(TokenizeMode::Typed { urls: false, urls_without_scheme: false, emails: true })
    } else {
        None
    }
}

pub(crate) fn same_text(a: &str, b: &str) -> (r: bool)
    ensures
        r == (a@ == b@),
{
    let ca = chars_of(a);
    let cb = chars_of(b);
    if ca.len() != cb.len() {
        return false;
    }
    let mut i: usize = 0;
    while i < ca.len()
        invariant
            ca@ == a@,
            cb@ == b@,
            ca@.len() == cb@.len(),
            i <= ca@.len(),
            forall|j: int| 0 <= j < i ==> a@[j] == b@[j],
        decreases ca@.len() - i,
    {
        if ca[i] != cb[i] {
            return false;
        }
        i = i + 1;
    }
    proof {
        assert(a@ =~= b@);
    }
    true
}

/// Reads a tokenizer name.
pub fn tokenize_mode(name: &str) -> (r: Option<TokenizeMode>)
    ensures
        r == tokenize_mode_spec(name@),
{
    if same_text(name, "html") {
        Some(TokenizeMode::Html)
    } else if same_text(name, "words") {
        Some(TokenizeMode::Words)
    } else if same_text(name, "uri") || same_text(name, "url") {
        Some(TokenizeMode::Typed { urls: true, urls_without_scheme: true, emails: true })
    } else if same_text(name, "uri_strict") || same_text(name, "url_strict") {
        Some(TokenizeMode::Typed { urls: true, urls_without_scheme: false, emails: false })
    } else if same_text(name, "email") {
        Some(TokenizeMode::Typed { urls: false, urls_without_scheme: false, emails: true })
    } else {
        None
    }
}

/// `s` with leading and trailing whitespace removed.
pub open spec fn trimmed(s: Seq<char>, from: int, to: int) -> bool {
    &&& 0 <= from <= to <= s.len()
    &&& forall|i: int| 0 <= i < from ==> white_space(#[trigger] s[i])
    &&& forall|i: int| to <= i < s.len() ==> white_space(#[trigger] s[i])
    &&& from < to ==> !white_space(s[from]) && !white_space(s[to - 1])
}

/// `r` is `s` without the whitespace at both ends.
pub open spec fn trim_of(s: Seq<char>, r: Seq<char>) -> bool {
    exists|from: int, to: int| #[trigger] trimmed(s, from, to) && r == s.subrange(from, to)
}

/// `s` without the whitespace at both ends.
pub fn fn_trim(s: &str) -> (r: String)
    ensures
        trim_of(s@, r@),
{
    let cs = chars_of(s);
    let n = cs.len();
    let mut from: usize = 0;
    while from < n && char_is_whitespace(cs[from])
        invariant
            cs@ == s@,
            n == s@.len(),
            from <= n,
            forall|i: int| 0 <= i < from ==> white_space(#[trigger] s@[i]),
        decreases n - from,
    {
        from = from + 1;
    }
    let mut to: usize = n;
    while to > from && char_is_whitespace(cs[to - 1])
        invariant
            cs@ == s@,
            n == s@.len(),
            from <= to <= n,
            from < n ==> !white_space(s@[from as int]),
            forall|i: int| to <= i < n ==> white_space(#[trigger] s@[i]),
        decreases to,
    {
        to = to - 1;
    }
    proof {
        assert(trimmed(s@, from as int, to as int));
    }
    s.substring_char(from, to).to_string()
}

/// `s` without its leading whitespace.
pub fn fn_trim_start(s: &str) -> (r: String)
    ensures
        exists|from: int|
            0 <= from <= s@.len() && (forall|i: int| 0 <= i < from ==> white_space(#[trigger] s@[i]))
                && (from < s@.len() ==> !white_space(s@[from])) && r@ == s@.subrange(
                from,
                s@.len() as int,
            ),
{
    let cs = chars_of(s);
    let n = cs.len();
    let mut from: usize = 0;
    while from < n && char_is_whitespace(cs[from])
        invariant
            cs@ == s@,
            n == s@.len(),
            from <= n,
            forall|i: int| 0 <= i < from ==> white_space(#[trigger] s@[i]),
        decreases n - from,
    {
        from = from + 1;
    }
    s.substring_char(from, n).to_string()
}

/// `s` without its trailing whitespace.
pub fn fn_trim_end(s: &str) -> (r: String)
    ensures
        exists|to: int|
            0 <= to <= s@.len() && (forall|i: int| to <= i < s@.len() ==> white_space(#[trigger] s@[i]))
                && (0 < to ==> !white_space(s@[to - 1])) && r@ == s@.subrange(0, to),
{
    let cs = chars_of(s);
    let n = cs.len();
    let mut to: usize = n;
    while to > 0 && char_is_whitespace(cs[to - 1])
        invariant
            cs@ == s@,
            n == s@.len(),
            to <= n,
            forall|i: int| to <= i < n ==> white_space(#[trigger] s@[i]),
        decreases to,
    {
        to = to - 1;
    }
    s.substring_char(0, to).to_string()
}

/// The ISO 639-3 code of the language that the detector finds in a text, if
/// it finds one.
pub uninterp spec fn detected_language(s: Seq<char>) -> Option<Seq<char>>;

/// Relies on whatlang::detect_lang and Lang::code: the code of the language
/// detected in `s`, which depends on the text alone.
#[verifier::external_body]
fn detect_language_code(s: &str) -> (r: Option<String>)
    ensures
        r matches Some(c) ==> detected_language(s@) == Some(c@),
        r is None ==> detected_language(s@) is None,
{
    whatlang::detect_lang(s).map(|l| l.code().to_string())
}

/// The code of a detected language, or `unknown` where none was detected.
pub fn language_or_unknown(detected: Option<String>) -> (r: String)
    ensures
        r@ == match detected {
            Some(c) => c@,
            None => "unknown"@,
        },
{
    match detected {
        Some(c) => c,
        None => "unknown".to_string(),
    }
}

/// The ISO 639-3 code of the language of `s`, or `unknown`.
pub fn fn_detect_language(s: &str) -> (r: String)
    ensures
        r@ == match detected_language(s@) {
            Some(c) => c,
            None => "unknown"@,
        },
{
    language_or_unknown(detect_language_code(s))
}

} // verus!
