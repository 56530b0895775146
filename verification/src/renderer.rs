//! Text layout engine: greedy word-wrap with hard splitting of
//! over-long tokens, and the composition of a chapter's plain text
//! lines for display.

use vstd::arithmetic::div_mod::lemma_div_plus_one;
use vstd::prelude::*;

use crate::content::{BlockModel, RenderableBlock, RenderableChapter};
use crate::text::is_wspace;
use crate::text::is_space_char;

verus! {

/// The tokens of `s` from position `i` on: maximal runs of
/// non-whitespace characters, with `cur` the partial token read so far
/// and `acc` the tokens already complete.
pub open spec fn tokens_rec(s: Seq<char>, i: int, cur: Seq<char>, acc: Seq<Seq<char>>) -> Seq<
    Seq<char>,
>
    decreases s.len() - i,
        when 0 <= i <= s.len()
{
    if i >= s.len() {
        if cur.len() > 0 {
            acc.push(cur)
        } else {
            acc
        }
    } else if is_wspace(s[i]) {
        tokens_rec(
            s,
            i + 1,
            Seq::empty(),
            if cur.len() > 0 {
                acc.push(cur)
            } else {
                acc
            },
        )
    } else {
        tokens_rec(s, i + 1, cur.push(s[i]), acc)
    }
}

/// The whitespace-separated tokens of `s`, in order. Splitting on
/// whitespace runs collapses all internal whitespace.
pub open spec fn tokens_of(s: Seq<char>) -> Seq<Seq<char>> {
    tokens_rec(s, 0, Seq::empty(), Seq::empty())
}

/// Splits `s` on whitespace runs into its tokens.
pub fn split_whitespace_tokens(s: &str) -> (r: Vec<String>)
    ensures
        r.deep_view() == tokens_of(s@),
{
    let n = s.unicode_len();
    let mut toks: Vec<String> = Vec::new();
    let mut cur: String = String::new();
    let mut i: usize = 0;
    proof {
        assert(toks.deep_view() =~= Seq::<Seq<char>>::empty());
    }
    while i < n
        invariant
            0 <= i <= n,
            n == s@.len(),
            tokens_of(s@) == tokens_rec(s@, i as int, cur@, toks.deep_view()),
        decreases n - i,
    {
        let ghost pre_toks = toks.deep_view();
        let c = s.get_char(i);
        if is_space_char(c) {
            if cur.unicode_len() > 0 {
                toks.push(cur);
                proof {
                    assert(toks.deep_view() =~= pre_toks.push(cur@));
                }
            }
            cur = String::new();
        } else {
            let piece = s.substring_char(i, i + 1);
            proof {
                assert(piece@ =~= seq![s@[i as int]]);
                assert(cur@ + piece@ =~= cur@.push(s@[i as int]));
            }
            cur.append(piece);
        }
        i += 1;
    }
    if cur.unicode_len() > 0 {
        let ghost pre_toks = toks.deep_view();
        toks.push(cur);
        proof {
            assert(toks.deep_view() =~= pre_toks.push(cur@));
        }
    }
    toks
}

/// Hard-splits `tok` into `w`-sized chunks: every full chunk becomes a
/// line of its own, the remainder becomes the new current line.
pub open spec fn hard_split(lines: Seq<Seq<char>>, tok: Seq<char>, w: int) -> (Seq<Seq<char>>, Seq<
    char,
>)
    decreases tok.len(),
        when w >= 1
{
    if tok.len() > w {
        hard_split(lines.push(tok.take(w)), tok.skip(w), w)
    } else {
        (lines, tok)
    }
}

/// One step of the greedy wrap: extend the current line when the token
/// still fits, otherwise flush the current line and start over with the
/// token, hard-splitting it when it alone exceeds the width.
pub open spec fn wrap_step_spec(
    st: (Seq<Seq<char>>, Seq<char>),
    tok: Seq<char>,
    w: int,
) -> (Seq<Seq<char>>, Seq<char>) {
    let cand = if st.1.len() == 0 {
        tok
    } else {
        st.1 + seq![' '] + tok
    };
    if cand.len() <= w {
        (st.0, cand)
    } else {
        let flushed = if st.1.len() > 0 {
            st.0.push(st.1)
        } else {
            st.0
        };
        if tok.len() <= w {
            (flushed, tok)
        } else {
            hard_split(flushed, tok, w)
        }
    }
}

/// The wrap state after consuming all of `toks`.
pub open spec fn wrap_fold(
    st: (Seq<Seq<char>>, Seq<char>),
    toks: Seq<Seq<char>>,
    w: int,
) -> (Seq<Seq<char>>, Seq<char>)
    decreases toks.len(),
{
    if toks.len() == 0 {
        st
    } else {
        wrap_fold(wrap_step_spec(st, toks[0], w), toks.drop_first(), w)
    }
}

/// End of input: flush a non-empty current line; an input that produced
/// no lines at all yields exactly one empty line.
pub open spec fn finish_wrap(st: (Seq<Seq<char>>, Seq<char>)) -> Seq<Seq<char>> {
    let ls = if st.1.len() > 0 {
        st.0.push(st.1)
    } else {
        st.0
    };
    if ls.len() == 0 {
        seq![Seq::<char>::empty()]
    } else {
        ls
    }
}

/// The lines of `s` wrapped greedily to width `w`.
pub open spec fn wrap_spec(s: Seq<char>, w: int) -> Seq<Seq<char>> {
    finish_wrap(wrap_fold((Seq::empty(), Seq::empty()), tokens_of(s), w))
}

/// Wraps `text` to fit within `width` columns: greedy word wrap over
/// whitespace-separated tokens, hard-splitting any token longer than
/// the width, and never returning zero lines. Every returned line fits
/// within `width`.
pub fn wrap_text(text: &str, width: usize) -> (r: Vec<String>)
    requires
        width >= 1,
    ensures
        r.deep_view() == wrap_spec(text@, width as int),
        r@.len() >= 1,
        forall|i: int| 0 <= i < r@.len() ==> #[trigger] r@[i]@.len() <= width,
{
    let tokens = split_whitespace_tokens(text);
    let ghost w = width as int;
    let mut lines: Vec<String> = Vec::new();
    let mut current: String = String::new();
    let mut ti: usize = 0;
    proof {
        assert(lines.deep_view() =~= Seq::<Seq<char>>::empty());
        assert(tokens.deep_view().skip(0) =~= tokens.deep_view());
    }
    while ti < tokens.len()
        invariant
            0 <= ti <= tokens@.len(),
            width >= 1,
            w == width as int,
            tokens.deep_view() == tokens_of(text@),
            wrap_fold((Seq::empty(), Seq::empty()), tokens_of(text@), w) == wrap_fold(
                (lines.deep_view(), current@),
                tokens.deep_view().skip(ti as int),
                w,
            ),
        decreases tokens@.len() - ti,
    {
        let ghost pre_st = (lines.deep_view(), current@);
        let ghost rest = tokens.deep_view().skip(ti as int);
        let ghost tok = tokens.deep_view()[ti as int];
        proof {
            assert(rest[0] == tok);
            assert(rest.drop_first() =~= tokens.deep_view().skip(ti as int + 1));
        }
        let t = &tokens[ti];
        proof {
            assert(t@ == tok);
        }
        let ghost cand = if pre_st.1.len() == 0 {
            tok
        } else {
            pre_st.1 + seq![' '] + tok
        };
        let t_len = t.unicode_len();
        let cur_len = current.unicode_len();
        let fits = if cur_len == 0 {
            t_len <= width
        } else {
            t_len < width && cur_len <= width - 1 - t_len
        };
        proof {
            assert(fits == (cand.len() <= w));
        }
        if fits {
            if cur_len == 0 {
                current = t.clone();
            } else {
                proof {
                    reveal_strlit(" ");
                    assert(" "@ =~= seq![' ']);
                }
                current = current.concat(" ").concat(t.as_str());
                proof {
                    assert(current@ == pre_st.1 + seq![' '] + tok);
                }
            }
            proof {
                assert(current@ == cand);
                assert(wrap_step_spec(pre_st, tok, w) == (pre_st.0, cand));
            }
        } else {
            if cur_len > 0 {
                let ghost pre_lines = lines.deep_view();
                lines.push(current);
                proof {
                    assert(lines.deep_view() =~= pre_lines.push(pre_st.1));
                }
                current = String::new();
            }
            let ghost flushed_spec = if pre_st.1.len() > 0 {
                pre_st.0.push(pre_st.1)
            } else {
                pre_st.0
            };
            proof {
                assert(lines.deep_view() == flushed_spec);
            }
            if t_len <= width {
                current = t.clone();
                proof {
                    assert(wrap_step_spec(pre_st, tok, w) == (flushed_spec, tok));
                }
            } else {
                let ghost flushed = lines.deep_view();
                let mut rest_tok: &str = t.as_str();
                loop
                    invariant
                        width >= 1,
                        w == width as int,
                        hard_split(flushed, t@, w) == hard_split(
                            lines.deep_view(),
                            rest_tok@,
                            w,
                        ),
                    ensures
                        rest_tok@.len() <= w,
                        hard_split(flushed, t@, w) == (lines.deep_view(), rest_tok@),
                    decreases rest_tok@.len(),
                {
                    let rl = rest_tok.unicode_len();
                    if rl > width {
                        let chunk = rest_tok.substring_char(0, width);
                        let ghost pre_lines = lines.deep_view();
                        proof {
                            assert(chunk@ =~= rest_tok@.take(w));
                            assert(rest_tok@.subrange(w, rl as int) =~= rest_tok@.skip(w));
                        }
                        lines.push(chunk.to_owned());
                        proof {
                            assert(lines.deep_view() =~= pre_lines.push(rest_tok@.take(w)));
                        }
                        rest_tok = rest_tok.substring_char(width, rl);
                    } else {
                        break;
                    }
                }
                current = rest_tok.to_owned();
                proof {
                    assert(wrap_step_spec(pre_st, tok, w) == hard_split(flushed_spec, tok, w));
                    assert((lines.deep_view(), current@) == hard_split(flushed_spec, tok, w));
                }
            }
        }
        proof {
            assert((lines.deep_view(), current@) == wrap_step_spec(pre_st, tok, w));
        }
        ti += 1;
    }
    proof {
        assert(tokens.deep_view().skip(ti as int) =~= Seq::<Seq<char>>::empty());
    }
    if current.unicode_len() > 0 {
        let ghost pre_lines = lines.deep_view();
        let ghost pre_cur = current@;
        lines.push(current);
        proof {
            assert(lines.deep_view() =~= pre_lines.push(pre_cur));
        }
    }
    if lines.len() == 0 {
        lines.push(String::new());
        proof {
            assert(lines.deep_view() =~= seq![Seq::<char>::empty()]);
        }
    }
    proof {
        assert(lines.deep_view() == wrap_spec(text@, w));
        lemma_wrap_fits(text@, w);
        assert forall|i: int| 0 <= i < lines@.len() implies #[trigger] lines@[i]@.len()
            <= width by {
            assert(lines.deep_view()[i] == lines@[i]@);
            assert(wrap_spec(text@, w)[i].len() <= w);
        }
    }
    lines
}

/// All lines of a hard split fit in the width, existing lines are kept,
/// and the remainder is at most `w` long.
proof fn lemma_hard_split_fits(lines: Seq<Seq<char>>, tok: Seq<char>, w: int)
    requires
        w >= 1,
        forall|i: int| 0 <= i < lines.len() ==> #[trigger] lines[i].len() <= w,
    ensures
        ({
            let r = hard_split(lines, tok, w);
            &&& forall|i: int| 0 <= i < r.0.len() ==> #[trigger] r.0[i].len() <= w
            &&& r.1.len() <= w
        }),
    decreases tok.len(),
{
    if tok.len() > w {
        let pushed = lines.push(tok.take(w));
        assert(forall|i: int| 0 <= i < pushed.len() ==> #[trigger] pushed[i].len() <= w);
        lemma_hard_split_fits(pushed, tok.skip(w), w);
    }
}

/// The greedy fold keeps every line, and the current line, within `w`.
proof fn lemma_fold_fits(st: (Seq<Seq<char>>, Seq<char>), toks: Seq<Seq<char>>, w: int)
    requires
        w >= 1,
        forall|i: int| 0 <= i < st.0.len() ==> #[trigger] st.0[i].len() <= w,
        st.1.len() <= w,
    ensures
        ({
            let r = wrap_fold(st, toks, w);
            &&& forall|i: int| 0 <= i < r.0.len() ==> #[trigger] r.0[i].len() <= w
            &&& r.1.len() <= w
        }),
    decreases toks.len(),
{
    if toks.len() > 0 {
        let st2 = wrap_step_spec(st, toks[0], w);
        let tok = toks[0];
        let cand = if st.1.len() == 0 {
            tok
        } else {
            st.1 + seq![' '] + tok
        };
        if cand.len() <= w {
        } else {
            let flushed = if st.1.len() > 0 {
                st.0.push(st.1)
            } else {
                st.0
            };
            assert(forall|i: int| 0 <= i < flushed.len() ==> #[trigger] flushed[i].len() <= w);
            if tok.len() <= w {
            } else {
                lemma_hard_split_fits(flushed, tok, w);
            }
        }
        lemma_fold_fits(st2, toks.drop_first(), w);
    }
}

/// Every line of a greedy wrap fits within the width.
proof fn lemma_wrap_fits(s: Seq<char>, w: int)
    requires
        w >= 1,
    ensures
        forall|i: int| 0 <= i < wrap_spec(s, w).len() ==> #[trigger] wrap_spec(s, w)[i].len()
            <= w,
{
    lemma_fold_fits((Seq::empty(), Seq::empty()), tokens_of(s), w);
}

/// The pieces of `ls` joined with a single space between them.
pub open spec fn join_spaced(ls: Seq<Seq<char>>) -> Seq<char>
    decreases ls.len(),
{
    if ls.len() == 0 {
        Seq::empty()
    } else if ls.len() == 1 {
        ls[0]
    } else {
        ls[0] + seq![' '] + join_spaced(ls.drop_first())
    }
}

/// Joining after appending one piece appends that piece, with a space
/// when something came before it.
proof fn lemma_join_push(ls: Seq<Seq<char>>, x: Seq<char>)
    ensures
        join_spaced(ls.push(x)) == if ls.len() == 0 {
            x
        } else {
            join_spaced(ls) + seq![' '] + x
        },
    decreases ls.len(),
{
    if ls.len() == 0 {
        assert(ls.push(x)[0] == x);
    } else {
        lemma_join_push(ls.drop_first(), x);
        assert(ls.push(x).drop_first() =~= ls.drop_first().push(x));
        assert(ls.push(x)[0] == ls[0]);
        if ls.len() > 1 {
            assert(ls[0] + seq![' '] + (join_spaced(ls.drop_first()) + seq![' '] + x) =~= (ls[0]
                + seq![' '] + join_spaced(ls.drop_first())) + seq![' '] + x);
        }
    }
}

/// Joins `a` and `b` with a single space when both are non-empty.
spec fn jcat(a: Seq<char>, b: Seq<char>) -> Seq<char> {
    if a.len() == 0 {
        b
    } else if b.len() == 0 {
        a
    } else {
        a + seq![' '] + b
    }
}

/// The text a wrap state stands for: all its lines and the current
/// line, joined with single spaces.
spec fn joined_state(st: (Seq<Seq<char>>, Seq<char>)) -> Seq<char> {
    if st.1.len() > 0 {
        join_spaced(st.0.push(st.1))
    } else {
        join_spaced(st.0)
    }
}

/// A join whose last piece is non-empty is non-empty.
proof fn lemma_join_nonempty(ls: Seq<Seq<char>>)
    requires
        ls.len() >= 1,
        ls[ls.len() - 1].len() >= 1,
    ensures
        join_spaced(ls).len() >= 1,
{
}

/// Folding tokens that each fit in the width appends them, space
/// separated, to the text the state stands for: no hard split happens,
/// so no token is ever cut.
proof fn lemma_fold_join(st: (Seq<Seq<char>>, Seq<char>), toks: Seq<Seq<char>>, w: int)
    requires
        w >= 1,
        forall|i: int| 0 <= i < toks.len() ==> 1 <= #[trigger] toks[i].len() <= w,
        forall|i: int| 0 <= i < st.0.len() ==> #[trigger] st.0[i].len() >= 1,
    ensures
        joined_state(wrap_fold(st, toks, w)) == jcat(joined_state(st), join_spaced(toks)),
    decreases toks.len(),
{
    if toks.len() == 0 {
    } else {
        let tok = toks[0];
        let st2 = wrap_step_spec(st, tok, w);
        let rest = toks.drop_first();
        // One step appends `tok` to the state's text.
        if st.1.len() == 0 {
            lemma_join_push(st.0, tok);
            if st.0.len() > 0 {
                lemma_join_nonempty(st.0);
            }
        } else {
            let cand = st.1 + seq![' '] + tok;
            lemma_join_push(st.0, st.1);
            lemma_join_nonempty(st.0.push(st.1));
            if cand.len() <= w {
                lemma_join_push(st.0, cand);
                if st.0.len() > 0 {
                    assert(join_spaced(st.0) + seq![' '] + (st.1 + seq![' '] + tok) =~= (
                    join_spaced(st.0) + seq![' '] + st.1) + seq![' '] + tok);
                }
            } else {
                lemma_join_push(st.0.push(st.1), tok);
            }
        }
        assert(joined_state(st2) == jcat(joined_state(st), tok));
        assert(forall|i: int| 0 <= i < st2.0.len() ==> #[trigger] st2.0[i].len() >= 1);
        lemma_fold_join(st2, rest, w);
        // Reassociate: appending `tok` and then the rest is appending
        // all the tokens.
        if rest.len() == 0 {
            assert(join_spaced(toks) == tok);
        } else {
            lemma_join_nonempty(rest);
            assert(join_spaced(toks) == tok + seq![' '] + join_spaced(rest));
            let a = joined_state(st);
            let b = join_spaced(rest);
            if a.len() > 0 {
                assert((a + seq![' '] + tok) + seq![' '] + b =~= a + seq![' '] + (tok + seq![' ']
                    + b));
            }
        }
    }
}

/// Every token of a text is non-empty.
proof fn lemma_tokens_rec_nonempty(s: Seq<char>, i: int, cur: Seq<char>, acc: Seq<Seq<char>>)
    requires
        0 <= i <= s.len(),
        forall|j: int| 0 <= j < acc.len() ==> #[trigger] acc[j].len() >= 1,
    ensures
        ({
            let r = tokens_rec(s, i, cur, acc);
            forall|j: int| 0 <= j < r.len() ==> #[trigger] r[j].len() >= 1
        }),
    decreases s.len() - i,
{
    let r = tokens_rec(s, i, cur, acc);
    if i >= s.len() {
        if cur.len() > 0 {
            assert(r == acc.push(cur));
            assert forall|j: int| 0 <= j < r.len() implies #[trigger] r[j].len() >= 1 by {
                if j < acc.len() {
                    assert(r[j] == acc[j]);
                } else {
                    assert(r[j] == cur);
                }
            }
        } else {
            assert(r == acc);
        }
    } else if is_wspace(s[i]) {
        let acc2 = if cur.len() > 0 {
            acc.push(cur)
        } else {
            acc
        };
        assert forall|j: int| 0 <= j < acc2.len() implies #[trigger] acc2[j].len() >= 1 by {
            if j < acc.len() {
                assert(acc2[j] == acc[j]);
            }
        }
        lemma_tokens_rec_nonempty(s, i + 1, Seq::empty(), acc2);
        assert(r == tokens_rec(s, i + 1, Seq::empty(), acc2));
    } else {
        lemma_tokens_rec_nonempty(s, i + 1, cur.push(s[i]), acc);
        assert(r == tokens_rec(s, i + 1, cur.push(s[i]), acc));
    }
}

/// Every token of a text is non-empty.
proof fn lemma_tokens_nonempty(s: Seq<char>)
    ensures
        forall|j: int| 0 <= j < tokens_of(s).len() ==> #[trigger] tokens_of(s)[j].len() >= 1,
{
    lemma_tokens_rec_nonempty(s, 0, Seq::empty(), Seq::empty());
}

/// Joining the lines of a wrap with single spaces reproduces the
/// whitespace-collapsed form of the text — its tokens joined with
/// single spaces — whenever every token fits in the width, so that no
/// hard line break is introduced.
pub proof fn lemma_wrap_join(s: Seq<char>, w: int)
    requires
        w >= 1,
        forall|i: int| 0 <= i < tokens_of(s).len() ==> #[trigger] tokens_of(s)[i].len() <= w,
    ensures
        join_spaced(wrap_spec(s, w)) == join_spaced(tokens_of(s)),
{
    lemma_tokens_nonempty(s);
    let init = (Seq::<Seq<char>>::empty(), Seq::<char>::empty());
    lemma_fold_join(init, tokens_of(s), w);
    let st = wrap_fold(init, tokens_of(s), w);
    assert(joined_state(init) == Seq::<char>::empty());
    assert(joined_state(st) == join_spaced(tokens_of(s)));
    if st.1.len() > 0 {
        lemma_join_nonempty(st.0.push(st.1));
    } else {
        if st.0.len() == 0 {
            assert(wrap_spec(s, w) == seq![Seq::<char>::empty()]);
            assert(join_spaced(seq![Seq::<char>::empty()]) == Seq::<char>::empty());
        }
    }
}

/// A text without whitespace is its own single token.
proof fn lemma_tokens_single(s: Seq<char>, i: int, cur: Seq<char>, acc: Seq<Seq<char>>)
    requires
        0 <= i <= s.len(),
        forall|j: int| i <= j < s.len() ==> !is_wspace(#[trigger] s[j]),
        cur.len() + s.len() - i > 0,
    ensures
        tokens_rec(s, i, cur, acc) == acc.push(cur + s.skip(i)),
    decreases s.len() - i,
{
    if i >= s.len() {
        assert(cur + s.skip(i) =~= cur);
    } else {
        lemma_tokens_single(s, i + 1, cur.push(s[i]), acc);
        assert(cur.push(s[i]) + s.skip(i + 1) =~= cur + s.skip(i));
    }
}

/// Shape of a hard split: it appends exactly `(len - 1) / w` chunks of
/// length `w` and leaves a remainder of 1 to `w` characters.
proof fn lemma_hard_split_shape(lines: Seq<Seq<char>>, tok: Seq<char>, w: int)
    requires
        w >= 1,
        tok.len() >= 1,
    ensures
        ({
            let r = hard_split(lines, tok, w);
            &&& r.0.len() == lines.len() + (tok.len() - 1) / w
            &&& forall|i: int| 0 <= i < lines.len() ==> r.0[i] == lines[i]
            &&& forall|i: int| lines.len() <= i < r.0.len() ==> #[trigger] r.0[i].len() == w
            &&& 1 <= r.1.len() <= w
        }),
    decreases tok.len(),
{
    if tok.len() > w {
        let pushed = lines.push(tok.take(w));
        lemma_hard_split_shape(pushed, tok.skip(w), w);
        lemma_div_plus_one(tok.len() - w - 1, w);
        assert((tok.len() - 1) / w == 1 + (tok.len() - w - 1) / w);
        let r = hard_split(lines, tok, w);
        assert(r == hard_split(pushed, tok.skip(w), w));
        assert forall|i: int| 0 <= i < lines.len() implies r.0[i] == lines[i] by {
            assert(r.0[i] == pushed[i]);
        }
        assert forall|i: int| lines.len() <= i < r.0.len() implies #[trigger] r.0[i].len()
            == w by {
            if i == lines.len() {
                assert(r.0[i] == pushed[i]);
                assert(pushed[i] == tok.take(w));
            } else {
                assert(pushed.len() <= i);
            }
        }
    } else {
        vstd::arithmetic::div_mod::lemma_basic_div(tok.len() - 1, w);
    }
}

/// A single token longer than the width wraps to exactly
/// `ceil(len / width)` lines, each of length exactly `width` except
/// possibly the last, which holds between 1 and `width` characters.
pub proof fn lemma_wrap_single_long_token(s: Seq<char>, w: int)
    requires
        w >= 1,
        s.len() > w,
        forall|i: int| 0 <= i < s.len() ==> !is_wspace(#[trigger] s[i]),
    ensures
        ({
            let ls = wrap_spec(s, w);
            &&& ls.len() == (s.len() + w - 1) / w
            &&& forall|i: int| 0 <= i < ls.len() - 1 ==> #[trigger] ls[i].len() == w
            &&& 1 <= ls[ls.len() - 1].len() <= w
        }),
{
    lemma_tokens_single(s, 0, Seq::empty(), Seq::empty());
    assert(Seq::<char>::empty() + s.skip(0) =~= s);
    let toks = tokens_of(s);
    assert(toks == Seq::<Seq<char>>::empty().push(s));
    assert(toks[0] == s);
    assert(toks.drop_first() =~= Seq::<Seq<char>>::empty());
    let init = (Seq::<Seq<char>>::empty(), Seq::<char>::empty());
    let st = wrap_step_spec(init, s, w);
    assert(toks.drop_first() == Seq::<Seq<char>>::empty());
    assert(wrap_fold(st, Seq::<Seq<char>>::empty(), w) == st);
    assert(wrap_fold(init, toks, w) == wrap_fold(st, toks.drop_first(), w));
    assert(st == hard_split(Seq::<Seq<char>>::empty(), s, w));
    lemma_hard_split_shape(Seq::<Seq<char>>::empty(), s, w);
    lemma_div_plus_one(s.len() - 1, w);
    assert((s.len() + w - 1) / w == 1 + (s.len() - 1) / w);
    let ls = wrap_spec(s, w);
    assert(ls == st.0.push(st.1));
    assert(ls[ls.len() - 1] == st.1);
    assert(forall|i: int| 0 <= i < ls.len() - 1 ==> ls[i] == st.0[i]);
}

/// `n` copies of the character `c`.
pub open spec fn char_repeat(c: char, n: int) -> Seq<char> {
    Seq::new(if n >= 0 {
        n as nat
    } else {
        0
    }, |i: int| c)
}

/// Builds a string of `n` copies of the single character of `piece`.
fn repeat_piece(piece: &str, n: usize) -> (r: String)
    requires
        piece@.len() == 1,
    ensures
        r@ == char_repeat(piece@[0], n as int),
{
    let mut out = String::new();
    let mut k: usize = 0;
    proof {
        assert(out@ =~= char_repeat(piece@[0], 0));
    }
    while k < n
        invariant
            0 <= k <= n,
            piece@.len() == 1,
            out@ == char_repeat(piece@[0], k as int),
        decreases n - k,
    {
        out.append(piece);
        k += 1;
        proof {
            assert(out@ =~= char_repeat(piece@[0], k as int));
        }
    }
    out
}

/// The decoration around a heading's text: a prefix and a suffix,
/// chosen by level, the widest levels shortened on narrow viewports.
pub open spec fn heading_decor(level: int, width: int) -> (Seq<char>, Seq<char>) {
    if level == 1 {
        let n = if width / 4 < 5 {
            width / 4
        } else {
            5
        };
        (char_repeat('=', n), char_repeat('=', n))
    } else if level == 2 {
        let n = if width / 6 < 3 {
            width / 6
        } else {
            3
        };
        (char_repeat('-', n), char_repeat('-', n))
    } else if level == 3 {
        ("###"@, Seq::empty())
    } else if level == 4 {
        ("####"@, Seq::empty())
    } else if level == 5 {
        ("#####"@, Seq::empty())
    } else {
        ("######"@, Seq::empty())
    }
}

/// A heading's display line: the text between its decoration, spaced.
pub open spec fn heading_line_spec(level: int, text: Seq<char>, width: int) -> Seq<char> {
    let d = heading_decor(level, width);
    seq![' '] + d.0 + seq![' '] + text + seq![' '] + d.1 + seq![' ']
}

/// An image block's display line.
pub open spec fn image_line_spec(p: Seq<char>) -> Seq<char> {
    "[Image: "@ + p + "]"@
}

/// The hint shown under an image line.
pub open spec fn image_hint_line() -> Seq<char> {
    "(Press 'i' when this line is visible to view the image)"@
}

/// The display lines of one block: blank lines around its content, a
/// paragraph wrapped two columns short of the viewport width, a heading
/// as one decorated line, an image as its reference line and a hint.
pub open spec fn block_lines_spec(b: BlockModel, width: int) -> Seq<Seq<char>> {
    match b {
        BlockModel::Paragraph(t) => seq![Seq::<char>::empty()] + wrap_spec(t, width - 2) + seq![
            Seq::<char>::empty(),
        ],
        BlockModel::Heading(level, t) => seq![
            Seq::<char>::empty(),
            heading_line_spec(level, t, width),
            Seq::<char>::empty(),
        ],
        BlockModel::Image(p) => seq![
            Seq::<char>::empty(),
            image_line_spec(p),
            image_hint_line(),
            Seq::<char>::empty(),
        ],
        BlockModel::ImagePlaceholder(d) => seq![
            Seq::<char>::empty(),
            image_line_spec(d),
            Seq::<char>::empty(),
        ],
    }
}

/// The display lines of a whole chapter: the blocks' lines in document
/// order.
pub open spec fn chapter_lines_spec(blocks: Seq<BlockModel>, width: int) -> Seq<Seq<char>>
    decreases blocks.len(),
{
    if blocks.len() == 0 {
        Seq::empty()
    } else {
        block_lines_spec(blocks[0], width) + chapter_lines_spec(blocks.drop_first(), width)
    }
}

/// Builds a heading's display line.
fn heading_line(level: usize, text: &str, width: usize) -> (r: String)
    ensures
        r@ == heading_line_spec(level as int, text@, width as int),
{
    proof {
        reveal_strlit(" ");
        reveal_strlit("=");
        reveal_strlit("-");
        assert(" "@ =~= seq![' ']);
        assert("="@[0] == '=');
        assert("-"@[0] == '-');
    }
    let (prefix, suffix) = if level == 1 {
        let q = width / 4;
        let n = if q < 5 {
            q
        } else {
            5
        };
        (repeat_piece("=", n), repeat_piece("=", n))
    } else if level == 2 {
        let q = width / 6;
        let n = if q < 3 {
            q
        } else {
            3
        };
        (repeat_piece("-", n), repeat_piece("-", n))
    } else if level == 3 {
        (String::from_str("###"), String::new())
    } else if level == 4 {
        (String::from_str("####"), String::new())
    } else if level == 5 {
        (String::from_str("#####"), String::new())
    } else {
        (String::from_str("######"), String::new())
    };
    String::from_str(" ")
        .concat(prefix.as_str())
        .concat(" ")
        .concat(text)
        .concat(" ")
        .concat(suffix.as_str())
        .concat(" ")
}

/// Builds an image block's display line.
fn image_line(p: &str) -> (r: String)
    ensures
        r@ == image_line_spec(p@),
{
    String::from_str("[Image: ").concat(p).concat("]")
}

/// Composes the plain display text. The styling around it — spans,
/// scrolling, borders — is left to the screen layer.
pub struct Renderer;

impl Renderer {
    /// The display lines of one block, appended to `lines`.
    fn push_block_lines(lines: &mut Vec<String>, block: &RenderableBlock, width: usize)
        requires
            width >= 3,
        ensures
            final(lines).deep_view() == old(lines).deep_view() + block_lines_spec(
                block.deep_view(),
                width as int,
            ),
    {
        let ghost base = lines.deep_view();
        match block {
            RenderableBlock::Paragraph(text) => {
                lines.push(String::new());
                let wrapped = wrap_text(text.as_str(), width - 2);
                let mut k: usize = 0;
                proof {
                    assert(lines.deep_view() =~= base + seq![Seq::<char>::empty()]
                        + wrapped.deep_view().take(0));
                }
                while k < wrapped.len()
                    invariant
                        0 <= k <= wrapped@.len(),
                        lines.deep_view() == base + seq![Seq::<char>::empty()]
                            + wrapped.deep_view().take(k as int),
                    decreases wrapped@.len() - k,
                {
                    let ghost pre = lines.deep_view();
                    lines.push(wrapped[k].clone());
                    proof {
                        assert(lines.deep_view() =~= pre.push(wrapped.deep_view()[k as int]));
                        assert(lines.deep_view() =~= base + seq![Seq::<char>::empty()]
                            + wrapped.deep_view().take(k as int + 1));
                    }
                    k += 1;
                }
                let ghost pre = lines.deep_view();
                lines.push(String::new());
                proof {
                    assert(wrapped.deep_view().take(wrapped@.len() as int) =~= wrapped.deep_view());
                    assert(lines.deep_view() =~= pre.push(Seq::<char>::empty()));
                    assert(lines.deep_view() =~= base + block_lines_spec(
                        block.deep_view(),
                        width as int,
                    ));
                }
            }
            RenderableBlock::Heading(level, text) => {
                lines.push(String::new());
                lines.push(heading_line(*level, text.as_str(), width));
                lines.push(String::new());
                proof {
                    assert(lines.deep_view() =~= base + block_lines_spec(
                        block.deep_view(),
                        width as int,
                    ));
                }
            }
            RenderableBlock::Image(path) => {
                lines.push(String::new());
                lines.push(image_line(path.as_str()));
                lines.push(String::from_str(
                    "(Press 'i' when this line is visible to view the image)",
                ));
                lines.push(String::new());
                proof {
                    assert(lines.deep_view() =~= base + block_lines_spec(
                        block.deep_view(),
                        width as int,
                    ));
                }
            }
            RenderableBlock::ImagePlaceholder(desc) => {
                lines.push(String::new());
                lines.push(image_line(desc.as_str()));
                lines.push(String::new());
                proof {
                    assert(lines.deep_view() =~= base + block_lines_spec(
                        block.deep_view(),
                        width as int,
                    ));
                }
            }
        }
    }

    /// The plain text lines a chapter displays as at the given viewport
    /// width: each block's lines in document order, paragraphs wrapped
    /// two columns short of the width.
    pub fn render_chapter_lines(chapter: &RenderableChapter, width: usize) -> (r: Vec<String>)
        requires
            width >= 3,
        ensures
            r.deep_view() == chapter_lines_spec(chapter.deep_view(), width as int),
    {
        let mut lines: Vec<String> = Vec::new();
        let mut i: usize = 0;
        let ghost dv = chapter.deep_view();
        proof {
            assert(lines.deep_view() =~= Seq::<Seq<char>>::empty());
            assert(dv.skip(0) =~= dv);
        }
        while i < chapter.blocks.len()
            invariant
                width >= 3,
                0 <= i <= chapter.blocks@.len(),
                dv == chapter.deep_view(),
                dv.len() == chapter.blocks@.len(),
                chapter_lines_spec(dv, width as int) == lines.deep_view() + chapter_lines_spec(
                    dv.skip(i as int),
                    width as int,
                ),
            decreases chapter.blocks@.len() - i,
        {
            let ghost pre = lines.deep_view();
            proof {
                assert(dv.skip(i as int)[0] == dv[i as int]);
                assert(dv.skip(i as int).drop_first() =~= dv.skip(i as int + 1));
                assert(dv[i as int] == chapter.blocks@[i as int].deep_view());
            }
            Self::push_block_lines(&mut lines, &chapter.blocks[i], width);
            proof {
                assert(pre + (block_lines_spec(dv[i as int], width as int) + chapter_lines_spec(
                    dv.skip(i as int + 1),
                    width as int,
                )) =~= (pre + block_lines_spec(dv[i as int], width as int)) + chapter_lines_spec(
                    dv.skip(i as int + 1),
                    width as int,
                ));
            }
            i += 1;
        }
        proof {
            assert(dv.skip(i as int) =~= Seq::<BlockModel>::empty());
            assert(lines.deep_view() + Seq::<Seq<char>>::empty() =~= lines.deep_view());
        }
        lines
    }
}

} // verus!
