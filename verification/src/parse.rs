use vstd::prelude::*;
use vstd::string::StrSliceExecFns;

use crate::dates::parse_stamp;
use crate::dates::stamp_of;
use crate::task::text_views;
use crate::text::blank;
use crate::text::char_is_space;
use crate::text::is_space;

verus! {

/// `s` with its leading whitespace dropped.
pub open spec fn trim_left(s: Seq<char>) -> Seq<char>
    decreases s.len(),
{
    if s.len() > 0 && is_space(s[0]) {
        trim_left(s.drop_first())
    } else {
        s
    }
}

/// `s` with its trailing whitespace dropped.
pub open spec fn trim_right(s: Seq<char>) -> Seq<char>
    decreases s.len(),
{
    if s.len() > 0 && is_space(s.last()) {
        trim_right(s.drop_last())
    } else {
        s
    }
}

/// `s` with leading and trailing whitespace dropped.
pub open spec fn trimmed(s: Seq<char>) -> Seq<char> {
    trim_right(trim_left(s))
}

/// Dropping leading whitespace keeps the suffix that starts at the first
/// non-whitespace character.
proof fn lemma_trim_left_at(s: Seq<char>, a: int)
    requires
        0 <= a <= s.len(),
        forall|k: int| 0 <= k < a ==> is_space(#[trigger] s[k]),
        a == s.len() || !is_space(s[a]),
    ensures
        trim_left(s) == s.skip(a),
    decreases a,
{
    if a == 0 {
        assert(s.skip(0) =~= s);
    } else {
        assert(is_space(s[0]));
        lemma_trim_left_at(s.drop_first(), a - 1);
        assert(s.drop_first().skip(a - 1) =~= s.skip(a));
    }
}

/// Dropping trailing whitespace keeps the prefix that ends after the last
/// non-whitespace character.
proof fn lemma_trim_right_at(s: Seq<char>, b: int)
    requires
        0 <= b <= s.len(),
        forall|k: int| b <= k < s.len() ==> is_space(#[trigger] s[k]),
        b == 0 || !is_space(s[b - 1]),
    ensures
        trim_right(s) == s.take(b),
    decreases s.len() - b,
{
    if b == s.len() {
        assert(s.take(b) =~= s);
    } else {
        assert(is_space(s[s.len() - 1]));
        lemma_trim_right_at(s.drop_last(), b);
        assert(s.drop_last().take(b) =~= s.take(b));
    }
}

/// Dropping leading whitespace from a text that holds a non-whitespace
/// character keeps at least that character.
proof fn lemma_trim_left_keeps_nonblank(s: Seq<char>)
    requires
        !blank(s),
    ensures
        !blank(trim_left(s)),
        trim_left(s).len() > 0,
    decreases s.len(),
{
    let w = choose|i: int| 0 <= i < s.len() && !is_space(s[i]);
    if s.len() > 0 && is_space(s[0]) {
        assert(s.drop_first()[w - 1] == s[w]);
        assert(!blank(s.drop_first()));
        lemma_trim_left_keeps_nonblank(s.drop_first());
    } else {
        assert(s.len() > 0);
    }
}

/// Dropping trailing whitespace from a text that holds a non-whitespace
/// character keeps at least that character.
proof fn lemma_trim_right_keeps_nonblank(s: Seq<char>)
    requires
        !blank(s),
    ensures
        !blank(trim_right(s)),
        trim_right(s).len() > 0,
    decreases s.len(),
{
    let w = choose|i: int| 0 <= i < s.len() && !is_space(s[i]);
    if s.len() > 0 && is_space(s.last()) {
        assert(s.drop_last()[w] == s[w]);
        assert(!blank(s.drop_last()));
        lemma_trim_right_keeps_nonblank(s.drop_last());
    } else {
        assert(s.len() > 0);
    }
}

/// Law: a text is empty or whitespace-only exactly when trimming it leaves
/// nothing. Creation rejects a title by the first reading; the two agree.
pub proof fn lemma_blank_iff_trim_empty(s: Seq<char>)
    ensures
        blank(s) <==> trimmed(s).len() == 0,
{
    if blank(s) {
        lemma_trim_left_at(s, s.len() as int);
        assert(s.skip(s.len() as int) =~= Seq::<char>::empty());
    } else {
        lemma_trim_left_keeps_nonblank(s);
        lemma_trim_right_keeps_nonblank(trim_left(s));
    }
}

/// `s` with leading and trailing whitespace dropped.
pub fn trim(s: &str) -> (r: String)
    ensures
        r@ == trimmed(s@),
{
    let n = s.unicode_len();
    let mut a: usize = 0;
    while a < n && char_is_space(s.get_char(a))
        invariant
            n == s@.len(),
            0 <= a <= n,
            forall|k: int| 0 <= k < a ==> is_space(#[trigger] s@[k]),
        decreases n - a,
    {
        a = a + 1;
    }
    let mut b: usize = n;
    while b > a && char_is_space(s.get_char(b - 1))
        invariant
            n == s@.len(),
            0 <= a <= b <= n,
            forall|k: int| b <= k < n ==> is_space(#[trigger] s@[k]),
        decreases b,
    {
        b = b - 1;
    }
    let piece = s.substring_char(a, b);
    let r = piece.to_owned();
    proof {
        lemma_trim_left_at(s@, a as int);
        assert forall|k: int| b - a <= k < s@.skip(a as int).len() implies is_space(
            #[trigger] s@.skip(a as int)[k],
        ) by {
            assert(s@.skip(a as int)[k] == s@[k + a]);
        }
        if b > a {
            assert(s@.skip(a as int)[b - a - 1] == s@[b - 1]);
        }
        lemma_trim_right_at(s@.skip(a as int), b - a);
        assert(s@.skip(a as int).take(b - a) =~= s@.subrange(a as int, b as int));
    }
    r
}

/// The pieces of `s` split on every comma, with `cur` the piece begun before
/// `s`.
pub open spec fn split_acc(s: Seq<char>, cur: Seq<char>) -> Seq<Seq<char>>
    decreases s.len(),
{
    if s.len() == 0 {
        seq![cur]
    } else if s[0] == ',' {
        seq![cur] + split_acc(s.drop_first(), Seq::empty())
    } else {
        split_acc(s.drop_first(), cur.push(s[0]))
    }
}

/// The comma-separated pieces of `s`: one piece between every two commas, one
/// before the first and one after the last.
pub open spec fn split_commas(s: Seq<char>) -> Seq<Seq<char>> {
    split_acc(s, Seq::empty())
}

/// Keeping a piece means it still holds something once trimmed.
pub open spec fn piece_kept() -> spec_fn(Seq<char>) -> bool {
    |x: Seq<char>| x.len() > 0
}

/// Trimming, as a function value.
pub open spec fn trim_fn() -> spec_fn(Seq<char>) -> Seq<char> {
    |x: Seq<char>| trimmed(x)
}

/// The tag names a comma-separated text denotes: every piece trimmed, empty
/// pieces dropped.
pub open spec fn comma_tags(s: Seq<char>) -> Seq<Seq<char>> {
    split_commas(s).map_values(trim_fn()).filter(piece_kept())
}

/// Mapping distributes over concatenation.
proof fn lemma_map_distributes_add<A, B>(a: Seq<A>, b: Seq<A>, f: spec_fn(A) -> B)
    ensures
        (a + b).map_values(f) == a.map_values(f) + b.map_values(f),
{
    assert((a + b).map_values(f) =~= a.map_values(f) + b.map_values(f));
}

/// The comma-separated tag names of an optional text: an absent text holds
/// none.
pub fn parse_comma_separated(s: &Option<String>) -> (r: Vec<String>)
    ensures
        (match s {
            Some(x) => text_views(r@) == comma_tags(x@),
            None => text_views(r@) == Seq::<Seq<char>>::empty(),
        }),
{
    match s {
        None => {
            let r: Vec<String> = Vec::new();
            proof {
                assert(text_views(r@) =~= Seq::<Seq<char>>::empty());
            }
            r
        },
        Some(x) => {
            let xs = x.as_str();
            let n = xs.unicode_len();
            let mut out: Vec<String> = Vec::new();
            let mut start: usize = 0;
            let mut i: usize = 0;
            let ghost full = xs@;
            let ghost mut done = Seq::<Seq<char>>::empty();
            proof {
                reveal(Seq::filter);
                assert(full.skip(0) =~= full);
                assert(full.subrange(0, 0) =~= Seq::<char>::empty());
                assert(done + split_acc(full, Seq::empty()) =~= split_acc(full, Seq::empty()));
                assert(done.map_values(trim_fn()) =~= Seq::<Seq<char>>::empty());
                assert(Seq::<Seq<char>>::empty().filter(piece_kept()) =~= Seq::<Seq<char>>::empty());
                assert(text_views(out@) =~= Seq::<Seq<char>>::empty());
            }
            while i < n
                invariant
                    n == full.len(),
                    full == xs@,
                    xs@ == x@,
                    0 <= start <= i <= n,
                    split_commas(full) == done + split_acc(
                        full.skip(i as int),
                        full.subrange(start as int, i as int),
                    ),
                    text_views(out@) == done.map_values(trim_fn()).filter(piece_kept()),
                decreases n - i,
            {
                let ghost cur = full.subrange(start as int, i as int);
                proof {
                    assert(full.skip(i as int)[0] == full[i as int]);
                    assert(full.skip(i as int).drop_first() =~= full.skip(i + 1));
                }
                if xs.get_char(i) == ',' {
                    let piece = xs.substring_char(start, i);
                    let t = trim(piece);
                    let ghost before = text_views(out@);
                    if !t.as_str().is_empty() {
                        out.push(t);
                        proof {
                            assert(text_views(out@) =~= before.push(trimmed(cur)));
                        }
                    }
                    proof {
                        let m = done.map_values(trim_fn());
                        let one = seq![cur].map_values(trim_fn());
                        assert(one =~= seq![trimmed(cur)]);
                        lemma_map_distributes_add(done, seq![cur], trim_fn());
                        Seq::filter_distributes_over_add(m, one, piece_kept());
                        reveal(Seq::filter);
                        assert(seq![trimmed(cur)].drop_last() =~= Seq::<Seq<char>>::empty());
                        assert(Seq::<Seq<char>>::empty().filter(piece_kept()) =~= Seq::<
                            Seq<char>,
                        >::empty());
                        assert((done + seq![cur]).map_values(trim_fn()).filter(piece_kept())
                            =~= text_views(out@));
                        assert(split_acc(full.skip(i as int), cur) == seq![cur] + split_acc(
                            full.skip(i + 1),
                            Seq::empty(),
                        ));
                        assert(done + (seq![cur] + split_acc(full.skip(i + 1), Seq::empty())) =~= (
                        done + seq![cur]) + split_acc(full.skip(i + 1), Seq::empty()));
                        assert(full.subrange(i + 1, i + 1) =~= Seq::<char>::empty());
                    }
                    proof {
                        done = done + seq![cur];
                    }
                    start = i + 1;
                } else {
                    proof {
                        assert(split_acc(full.skip(i as int), cur) == split_acc(
                            full.skip(i + 1),
                            cur.push(full[i as int]),
                        ));
                        assert(full.subrange(start as int, i + 1) =~= cur.push(full[i as int]));
                    }
                }
                i = i + 1;
            }
            let ghost cur = full.subrange(start as int, n as int);
            let piece = xs.substring_char(start, n);
            let t = trim(piece);
            let ghost before = text_views(out@);
            if !t.as_str().is_empty() {
                out.push(t);
                proof {
                    assert(text_views(out@) =~= before.push(trimmed(cur)));
                }
            }
            proof {
                assert(full.skip(n as int) =~= Seq::<char>::empty());
                assert(split_acc(full.skip(n as int), cur) == seq![cur]);
                let m = done.map_values(trim_fn());
                let one = seq![cur].map_values(trim_fn());
                assert(one =~= seq![trimmed(cur)]);
                lemma_map_distributes_add(done, seq![cur], trim_fn());
                Seq::filter_distributes_over_add(m, one, piece_kept());
                reveal(Seq::filter);
                assert(seq![trimmed(cur)].drop_last() =~= Seq::<Seq<char>>::empty());
                assert(Seq::<Seq<char>>::empty().filter(piece_kept()) =~= Seq::<Seq<char>>::empty());
                assert((done + seq![cur]).map_values(trim_fn()).filter(piece_kept()) =~= text_views(
                    out@,
                ));
                assert(split_commas(full) == done + seq![cur]);
            }
            out
        },
    }
}

/// The optional boolean a form field denotes: the texts `true` and `false`
/// denote the values, an absent or empty field denotes no constraint, and any
/// other text is an error.
pub fn parse_optional_bool(s: &Option<String>) -> (r: Result<Option<bool>, ()>)
    ensures
        (match s {
            None => r == Ok::<Option<bool>, ()>(None::<bool>),
            Some(x) => {
                if x@ == "true"@ {
                    r == Ok::<Option<bool>, ()>(Some(true))
                } else if x@ == "false"@ {
                    r == Ok::<Option<bool>, ()>(Some(false))
                } else if x@.len() == 0 {
                    r == Ok::<Option<bool>, ()>(None::<bool>)
                } else {
                    r == Err::<Option<bool>, ()>(())
                }
            },
        }),
{
    match s {
        None => Ok(None),
        Some(x) => {
            let t: String = "true".to_owned();
            let f: String = "false".to_owned();
            if *x == t {
                Ok(Some(true))
            } else if *x == f {
                Ok(Some(false))
            } else if x.as_str().is_empty() {
                Ok(None)
            } else {
                Err(())
            }
        },
    }
}

/// The optional timestamp a form field denotes: an absent or empty field
/// denotes no value, a text in the form `YYYY-MM-DDTHH:MM` denotes its
/// timestamp, and any other text is an error.
pub fn parse_optional_datetime(s: &Option<String>) -> (r: Result<Option<i64>, ()>)
    ensures
        (match s {
            None => r == Ok::<Option<i64>, ()>(None::<i64>),
            Some(x) => {
                if x@.len() == 0 {
                    r == Ok::<Option<i64>, ()>(None::<i64>)
                } else {
                    match stamp_of(x@) {
                        Some(d) => r == Ok::<Option<i64>, ()>(Some(d)),
                        None => r == Err::<Option<i64>, ()>(()),
                    }
                }
            },
        }),
{
    match s {
        None => Ok(None),
        Some(x) => {
            if x.as_str().is_empty() {
                return Ok(None);
            }
            match parse_stamp(x.as_str()) {
                Some(d) => Ok(Some(d)),
                None => Err(()),
            }
        },
    }
}

} // verus!
