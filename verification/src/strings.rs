//! Verified character-level string utilities: equality, lexicographic
//! comparison, substring search, whitespace splitting, line splitting and
//! trimming. All contracts are stated over `Seq<char>` views.

use vstd::prelude::*;

verus! {

/// View of a sequence of owned strings as a sequence of character sequences.
pub open spec fn views_of(v: Seq<String>) -> Seq<Seq<char>> {
    v.map_values(|s: String| s@)
}

/// Whitespace characters recognized when splitting flag values.
pub open spec fn is_ws(c: char) -> bool {
    c == ' ' || c == '\t' || c == '\r' || c == '\n'
}

/// Executable twin of `is_ws`.
pub fn is_ws_char(c: char) -> (r: bool)
    ensures
        r == is_ws(c),
{
    c == ' ' || c == '\t' || c == '\r' || c == '\n'
}

/// String equality by characters.
pub fn str_eq(a: &str, b: &str) -> (r: bool)
    ensures
        r == (a@ == b@),
{
    let na: usize = a.unicode_len();
    let nb: usize = b.unicode_len();
    if na != nb {
        proof {
            assert(a@ != b@) by {
                if a@ == b@ {
                    assert(a@.len() == b@.len());
                }
            }
        }
        return false;
    }
    let mut i: usize = 0;
    while i < na
        invariant
            na == a@.len(),
            na == b@.len(),
            i <= na,
            forall|k: int| 0 <= k < i ==> a@[k] == b@[k],
        decreases na - i,
    {
        if a.get_char(i) != b.get_char(i) {
            proof {
                assert(a@ != b@) by {
                    if a@ == b@ {
                        assert(a@[i as int] == b@[i as int]);
                    }
                }
            }
            return false;
        }
        i = i + 1;
    }
    proof {
        assert(a@ =~= b@);
    }
    true
}

/// Lexicographic order on character sequences, compared from position `i` on.
pub open spec fn lex_le_from(a: Seq<char>, b: Seq<char>, i: int) -> bool
    decreases a.len() - i,
{
    if i >= a.len() {
        true
    } else if i >= b.len() {
        false
    } else if a[i] != b[i] {
        (a[i] as u32) < (b[i] as u32)
    } else {
        lex_le_from(a, b, i + 1)
    }
}

/// Lexicographic order on character sequences (code-point order).
pub open spec fn lex_le(a: Seq<char>, b: Seq<char>) -> bool {
    lex_le_from(a, b, 0)
}

/// Executable lexicographic comparison.
pub fn str_lex_le(a: &str, b: &str) -> (r: bool)
    ensures
        r == lex_le(a@, b@),
{
    let na: usize = a.unicode_len();
    let nb: usize = b.unicode_len();
    let mut i: usize = 0;
    while i < na && i < nb
        invariant
            na == a@.len(),
            nb == b@.len(),
            i <= na,
            i <= nb,
            lex_le(a@, b@) == lex_le_from(a@, b@, i as int),
        decreases na - i,
    {
        let ca = a.get_char(i);
        let cb = b.get_char(i);
        if ca != cb {
            return (ca as u32) < (cb as u32);
        }
        i = i + 1;
    }
    i >= na
}

/// `lex_le` is total: for any two sequences at least one direction holds.
pub proof fn lemma_lex_le_total(a: Seq<char>, b: Seq<char>, i: int)
    requires
        0 <= i,
    ensures
        lex_le_from(a, b, i) || lex_le_from(b, a, i),
    decreases a.len() - i,
{
    if i >= a.len() || i >= b.len() {
    } else if a[i] != b[i] {
        let ca = a[i];
        let cb = b[i];
        assert((ca as u32) != (cb as u32)) by {
            vstd::utf8::char_u32_cast(ca, ca as u32);
            vstd::utf8::char_u32_cast(cb, cb as u32);
        }
    } else {
        lemma_lex_le_total(a, b, i + 1);
    }
}

/// `lex_le` is antisymmetric: both directions hold only for equal sequences.
pub proof fn lemma_lex_le_antisymmetric(a: Seq<char>, b: Seq<char>, i: int)
    requires
        0 <= i <= a.len(),
        0 <= i <= b.len(),
        lex_le_from(a, b, i),
        lex_le_from(b, a, i),
        a.subrange(0, i) =~= b.subrange(0, i),
    ensures
        a =~= b,
    decreases a.len() - i,
{
    if i >= a.len() {
        assert(i >= b.len());
        assert(a =~= a.subrange(0, i));
        assert(b =~= b.subrange(0, i));
    } else {
        assert(i < b.len());
        assert(a[i] == b[i]) by {
            if a[i] != b[i] {
                assert((a[i] as u32) < (b[i] as u32));
                assert((b[i] as u32) < (a[i] as u32));
            }
        }
        assert(a.subrange(0, i + 1) =~= b.subrange(0, i + 1));
        lemma_lex_le_antisymmetric(a, b, i + 1);
    }
}

/// `lex_le` is transitive.
pub proof fn lemma_lex_le_transitive(a: Seq<char>, b: Seq<char>, c: Seq<char>, i: int)
    requires
        lex_le_from(a, b, i),
        lex_le_from(b, c, i),
    ensures
        lex_le_from(a, c, i),
    decreases a.len() - i,
{
    if i >= a.len() {
    } else if i >= b.len() {
    } else {
        if i >= c.len() {
            assert(!lex_le_from(b, c, i));
        } else if a[i] == b[i] && b[i] == c[i] {
            lemma_lex_le_transitive(a, b, c, i + 1);
        } else {
            assert((a[i] as u32) <= (b[i] as u32));
            assert((b[i] as u32) <= (c[i] as u32));
        }
    }
}

/// The needle `sub` occurs in `s` starting at position `i`.
pub open spec fn has_sub_at(s: Seq<char>, sub: Seq<char>, i: int) -> bool {
    0 <= i && i + sub.len() <= s.len() && s.subrange(i, i + sub.len()) =~= sub
}

/// The needle `sub` occurs somewhere in `s`.
pub open spec fn contains_sub(s: Seq<char>, sub: Seq<char>) -> bool {
    exists|i: int| has_sub_at(s, sub, i)
}

/// Does `sub` occur in `s` starting at position `i`?
pub fn match_at(s: &str, sub: &str, i: usize) -> (r: bool)
    requires
        i <= s@.len(),
    ensures
        r == has_sub_at(s@, sub@, i as int),
{
    let n: usize = s.unicode_len();
    let m: usize = sub.unicode_len();
    if m > n - i {
        return false;
    }
    let piece = s.substring_char(i, i + m);
    str_eq(piece, sub)
}

/// First occurrence of `sub` in `s`, if any.
pub fn find_sub(s: &str, sub: &str) -> (r: Option<usize>)
    ensures
        match r {
            Some(i) => has_sub_at(s@, sub@, i as int) && forall|j: int|
                0 <= j < i ==> !has_sub_at(s@, sub@, j),
            None => !contains_sub(s@, sub@),
        },
{
    let n: usize = s.unicode_len();
    let mut i: usize = 0;
    while i < n
        invariant
            n == s@.len(),
            i <= n,
            forall|j: int| 0 <= j < i ==> !has_sub_at(s@, sub@, j),
        decreases n - i,
    {
        if match_at(s, sub, i) {
            return Some(i);
        }
        i = i + 1;
    }
    if match_at(s, sub, n) {
        return Some(n);
    }
    proof {
        assert forall|j: int| !has_sub_at(s@, sub@, j) by {
            if has_sub_at(s@, sub@, j) {
                assert(0 <= j <= s@.len());
            }
        }
    }
    None
}

/// Does `s` contain `sub`?
pub fn contains_str(s: &str, sub: &str) -> (r: bool)
    ensures
        r == contains_sub(s@, sub@),
{
    match find_sub(s, sub) {
        Some(_) => true,
        None => false,
    }
}

/// Position of the first occurrence of `c` in `s` at or after `i`, or the
/// length of `s` when there is none.
pub open spec fn find_char_from(s: Seq<char>, c: char, i: int) -> int
    decreases s.len() - i,
{
    if i < 0 || i >= s.len() {
        s.len() as int
    } else if s[i] == c {
        i
    } else {
        find_char_from(s, c, i + 1)
    }
}

/// Position of the first occurrence of `c` in `s`, or the length of `s`.
pub fn find_char(s: &str, c: char) -> (r: usize)
    ensures
        r == find_char_from(s@, c, 0),
        r <= s@.len(),
{
    let n: usize = s.unicode_len();
    let mut i: usize = 0;
    while i < n
        invariant
            n == s@.len(),
            i <= n,
            find_char_from(s@, c, 0) == find_char_from(s@, c, i as int),
        decreases n - i,
    {
        if s.get_char(i) == c {
            return i;
        }
        i = i + 1;
    }
    n
}

/// Position of the first occurrence of the (nonempty) needle `sub` in `s` at
/// or after `i`, or the length of `s` when there is none.
pub open spec fn find_sub_from(s: Seq<char>, sub: Seq<char>, i: int) -> int
    decreases s.len() - i,
{
    if i < 0 || i >= s.len() {
        s.len() as int
    } else if has_sub_at(s, sub, i) {
        i
    } else {
        find_sub_from(s, sub, i + 1)
    }
}

/// Position of the first occurrence of `sub` in `s`, or the length of `s`.
pub fn find_sub_idx(s: &str, sub: &str) -> (r: usize)
    requires
        sub@.len() > 0,
    ensures
        r == find_sub_from(s@, sub@, 0),
        r <= s@.len(),
{
    let n: usize = s.unicode_len();
    let mut i: usize = 0;
    while i < n
        invariant
            n == s@.len(),
            i <= n,
            find_sub_from(s@, sub@, 0) == find_sub_from(s@, sub@, i as int),
        decreases n - i,
    {
        if match_at(s, sub, i) {
            return i;
        }
        i = i + 1;
    }
    n
}

/// Characters allowed in a configuration identifier.
pub open spec fn is_ident_char(c: char) -> bool {
    ('a' <= c && c <= 'z') || ('A' <= c && c <= 'Z') || ('0' <= c && c <= '9') || c == '_' || c
        == '-'
}

/// A nonempty run of identifier characters.
pub open spec fn is_ident_spec(s: Seq<char>) -> bool {
    s.len() > 0 && forall|i: int| 0 <= i < s.len() ==> is_ident_char(#[trigger] s[i])
}

/// Executable twin of `is_ident_spec`.
pub fn is_ident(s: &str) -> (r: bool)
    ensures
        r == is_ident_spec(s@),
{
    let n: usize = s.unicode_len();
    if n == 0 {
        return false;
    }
    let mut i: usize = 0;
    while i < n
        invariant
            n == s@.len(),
            i <= n,
            forall|k: int| 0 <= k < i ==> is_ident_char(#[trigger] s@[k]),
        decreases n - i,
    {
        let c = s.get_char(i);
        let ok = ('a' <= c && c <= 'z') || ('A' <= c && c <= 'Z') || ('0' <= c && c <= '9') || c
            == '_' || c == '-';
        if !ok {
            return false;
        }
        i = i + 1;
    }
    true
}

/// `s` without its leading whitespace.
pub open spec fn trim_front(s: Seq<char>) -> Seq<char>
    decreases s.len(),
{
    if s.len() > 0 && is_ws(s[0]) {
        trim_front(s.drop_first())
    } else {
        s
    }
}

/// `s` without its trailing whitespace.
pub open spec fn trim_back(s: Seq<char>) -> Seq<char>
    decreases s.len(),
{
    if s.len() > 0 && is_ws(s.last()) {
        trim_back(s.drop_last())
    } else {
        s
    }
}

/// `s` without leading and trailing whitespace.
pub open spec fn trim_spec(s: Seq<char>) -> Seq<char> {
    trim_back(trim_front(s))
}

proof fn lemma_trim_front_range(s: Seq<char>, a: int)
    requires
        0 <= a <= s.len(),
        forall|k: int| 0 <= k < a ==> is_ws(s[k]),
        a < s.len() ==> !is_ws(s[a]),
    ensures
        trim_front(s) =~= s.subrange(a, s.len() as int),
    decreases a,
{
    if a == 0 {
        if s.len() > 0 && is_ws(s[0]) {
        } else {
            assert(trim_front(s) == s);
        }
        assert(s =~= s.subrange(0, s.len() as int));
    } else {
        assert(is_ws(s[0]));
        let t = s.drop_first();
        assert(forall|k: int| 0 <= k < a - 1 ==> t[k] == s[k + 1]);
        lemma_trim_front_range(t, a - 1);
        assert(t.subrange(a - 1, t.len() as int) =~= s.subrange(a, s.len() as int));
    }
}

proof fn lemma_trim_back_range(s: Seq<char>, b: int)
    requires
        0 <= b <= s.len(),
        forall|k: int| b <= k < s.len() ==> is_ws(s[k]),
        b > 0 ==> !is_ws(s[b - 1]),
    ensures
        trim_back(s) =~= s.subrange(0, b),
    decreases s.len() - b,
{
    if b == s.len() {
        if s.len() > 0 && is_ws(s.last()) {
            lemma_trim_back_range(s.drop_last(), b - 1);
            assert(s.drop_last().subrange(0, b - 1) =~= s.subrange(0, b - 1));
            assert(!is_ws(s[b - 1]) || is_ws(s[b - 1]));
            // b == s.len() and the last char is whitespace contradicts b > 0 ==> !is_ws(s[b-1])
            assert(false);
        } else {
            assert(trim_back(s) == s);
            assert(s =~= s.subrange(0, b));
        }
    } else {
        assert(is_ws(s.last()));
        let t = s.drop_last();
        lemma_trim_back_range(t, b);
        assert(t.subrange(0, b) =~= s.subrange(0, b));
    }
}

/// Remove leading and trailing whitespace.
pub fn trim(s: &str) -> (r: &str)
    ensures
        r@ =~= trim_spec(s@),
{
    let n: usize = s.unicode_len();
    let mut a: usize = 0;
    while a < n && is_ws_char(s.get_char(a))
        invariant
            n == s@.len(),
            a <= n,
            forall|k: int| 0 <= k < a ==> is_ws(s@[k]),
        decreases n - a,
    {
        a = a + 1;
    }
    let mut b: usize = n;
    while b > a && is_ws_char(s.get_char(b - 1))
        invariant
            n == s@.len(),
            a <= b <= n,
            forall|k: int| b <= k < n ==> is_ws(s@[k]),
        decreases b,
    {
        b = b - 1;
    }
    proof {
        lemma_trim_front_range(s@, a as int);
        let f = s@.subrange(a as int, s@.len() as int);
        lemma_trim_back_range(f, b - a);
        assert(f.subrange(0, b - a) =~= s@.subrange(a as int, b as int));
    }
    s.substring_char(a, b)
}

/// Tokens of `s`: maximal runs of non-whitespace characters, scanned from
/// position `i` with the partial token `cur` and the finished tokens `acc`.
pub open spec fn split_ws_from(
    s: Seq<char>,
    i: int,
    cur: Seq<char>,
    acc: Seq<Seq<char>>,
) -> Seq<Seq<char>>
    decreases s.len() - i,
{
    if i < 0 || i >= s.len() {
        if cur.len() > 0 {
            acc.push(cur)
        } else {
            acc
        }
    } else if is_ws(s[i]) {
        if cur.len() > 0 {
            split_ws_from(s, i + 1, Seq::empty(), acc.push(cur))
        } else {
            split_ws_from(s, i + 1, cur, acc)
        }
    } else {
        split_ws_from(s, i + 1, cur.push(s[i]), acc)
    }
}

/// The whitespace-separated tokens of `s`, in order, with no empty tokens.
pub open spec fn split_ws(s: Seq<char>) -> Seq<Seq<char>> {
    split_ws_from(s, 0, Seq::empty(), Seq::empty())
}

/// Split `s` on whitespace, dropping empty tokens.
pub fn split_whitespace(s: &str) -> (r: Vec<String>)
    ensures
        views_of(r@) =~= split_ws(s@),
{
    let n: usize = s.unicode_len();
    let mut acc: Vec<String> = Vec::new();
    proof {
        assert(views_of(acc@) =~= Seq::<Seq<char>>::empty());
    }
    let mut i: usize = 0;
    while i < n
        invariant
            n == s@.len(),
            i <= n,
            split_ws(s@) == split_ws_from(s@, i as int, Seq::<char>::empty(), views_of(acc@)),
        decreases n - i,
    {
        if is_ws_char(s.get_char(i)) {
            i = i + 1;
        } else {
            let start = i;
            let mut j: usize = i + 1;
            proof {
                assert(s@.subrange(start as int, start + 1) =~= Seq::<char>::empty().push(
                    s@[start as int],
                ));
            }
            while j < n && !is_ws_char(s.get_char(j))
                invariant
                    n == s@.len(),
                    start < j <= n,
                    split_ws(s@) == split_ws_from(
                        s@,
                        j as int,
                        s@.subrange(start as int, j as int),
                        views_of(acc@),
                    ),
                decreases n - j,
            {
                proof {
                    assert(s@.subrange(start as int, j + 1) =~= s@.subrange(
                        start as int,
                        j as int,
                    ).push(s@[j as int]));
                }
                j = j + 1;
            }
            let tok = s.substring_char(start, j).to_owned();
            proof {
                let cur = s@.subrange(start as int, j as int);
                assert(cur.len() > 0);
                assert(views_of(acc@.push(tok)) =~= views_of(acc@).push(tok@));
            }
            acc.push(tok);
            i = j;
        }
    }
    proof {
        assert(views_of(acc@) =~= split_ws_from(
            s@,
            i as int,
            Seq::<char>::empty(),
            views_of(acc@),
        ));
    }
    acc
}

/// Drop one trailing carriage return, as line splitting does.
pub open spec fn strip_cr(s: Seq<char>) -> Seq<char> {
    if s.len() > 0 && s.last() == '\r' {
        s.drop_last()
    } else {
        s
    }
}

/// The lines of `s` from position `i` on: text is split at every newline,
/// a carriage return directly before a newline is dropped, and a final
/// empty remainder after a trailing newline yields no line.
pub open spec fn lines_from(s: Seq<char>, i: int, start: int, acc: Seq<Seq<char>>) -> Seq<
    Seq<char>,
>
    decreases s.len() - i,
{
    if i < 0 || start < 0 || start > i || i >= s.len() {
        if start < i {
            acc.push(strip_cr(s.subrange(start, i)))
        } else {
            acc
        }
    } else if s[i] == '\n' {
        lines_from(s, i + 1, i + 1, acc.push(strip_cr(s.subrange(start, i))))
    } else {
        lines_from(s, i + 1, start, acc)
    }
}

/// The lines of `s`.
pub open spec fn lines_spec(s: Seq<char>) -> Seq<Seq<char>> {
    lines_from(s, 0, 0, Seq::empty())
}

/// Split `s` into lines: at every newline, dropping a carriage return that
/// directly precedes the newline, with no line for a trailing newline.
pub fn split_lines(s: &str) -> (r: Vec<String>)
    ensures
        views_of(r@) =~= lines_spec(s@),
{
    let n: usize = s.unicode_len();
    let mut acc: Vec<String> = Vec::new();
    proof {
        assert(views_of(acc@) =~= Seq::<Seq<char>>::empty());
    }
    let mut start: usize = 0;
    let mut i: usize = 0;
    while i < n
        invariant
            n == s@.len(),
            start <= i <= n,
            lines_spec(s@) == lines_from(s@, i as int, start as int, views_of(acc@)),
        decreases n - i,
    {
        if s.get_char(i) == '\n' {
            let raw_end = if i > start && s.get_char(i - 1) == '\r' {
                i - 1
            } else {
                i
            };
            let line = s.substring_char(start, raw_end).to_owned();
            proof {
                let whole = s@.subrange(start as int, i as int);
                if i > start && s@[i - 1] == '\r' {
                    assert(whole.len() > 0);
                    assert(whole.last() == '\r');
                    assert(whole.drop_last() =~= s@.subrange(start as int, i - 1));
                } else {
                    if whole.len() > 0 {
                        assert(whole.last() == s@[i - 1]);
                    }
                }
                assert(line@ =~= strip_cr(whole));
                assert(views_of(acc@.push(line)) =~= views_of(acc@).push(strip_cr(whole)));
            }
            acc.push(line);
            i = i + 1;
            start = i;
        } else {
            i = i + 1;
        }
    }
    if start < n {
        let line = s.substring_char(start, n).to_owned();
        proof {
            let whole = s@.subrange(start as int, n as int);
            assert(views_of(acc@.push(line)) =~= views_of(acc@).push(whole));
            // The final line keeps a trailing carriage return only when one is
            // present; splitting stopped at the end of input, not at a newline.
            assert(lines_from(s@, n as int, start as int, views_of(acc@)) == views_of(acc@).push(
                strip_cr(whole),
            ));
        }
        if line.as_str().unicode_len() > 0 && line.as_str().get_char(
            line.as_str().unicode_len() - 1,
        ) == '\r' {
            let shorter = s.substring_char(start, n - 1).to_owned();
            proof {
                let whole = s@.subrange(start as int, n as int);
                assert(whole.drop_last() =~= s@.subrange(start as int, n - 1));
                assert(views_of(acc@.push(shorter)) =~= views_of(acc@).push(strip_cr(whole)));
            }
            acc.push(shorter);
        } else {
            proof {
                let whole = s@.subrange(start as int, n as int);
                assert(strip_cr(whole) == whole);
                assert(views_of(acc@.push(line)) =~= views_of(acc@).push(strip_cr(whole)));
            }
            acc.push(line);
        }
    }
    acc
}

} // verus!
