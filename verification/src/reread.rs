//! What a config file reads as once a save has rewritten it.
//!
//! A save replaces the value of each toggle line and appends the toggles the
//! file lacks. Read back, the file gives the pane's toggles and the file's own
//! pattern: nothing the reader wrote by hand stands in the way, and nothing is
//! read twice.

use vstd::prelude::*;
use crate::text::{trim, white_space};
use crate::quote::{lemma_lines_after_feed, split_lines, strip_cr, text_lines};
use crate::config::{
    Defaults, Fault, Reading, adopted, comment_from, is_toggle, is_valued, lemma_adopt_pattern,
    lemma_adopt_toggle, lemma_owned_is_read, lemma_restated_reads, lemma_toggles_seen_contains,
    line_key, rewritten_reading, missing_lines, toggle_of, with_toggle, lemma_with_toggle, lemma_seen_on_push,
    lemma_names_distinct, lemma_trim_white_tail, lemma_no_comment, opens_comment, all_white, first_at,
    value_text, lemma_first_at_is, lemma_word_trims, piece_ending, any_missing, config_keys, pieces,
    piece_shaped, lemma_pieces_shape, rewritten, without_mark, config_of, seen_on, sets_something, toggles_seen, join_all, lemma_comment_from_bound, lemma_piece_lines, lemma_said_part,
    lemma_spellings, lemma_strip_end, lemma_trim_cr, no_feed, owned_key, piece_text, raw_of, read_line,
    read_lines, restated, rewrite_pieces, said_part, strip_end, word_of,
};

verus! {

/// Whether two runs of lines read alike: as many, each trimming to the same.
pub open spec fn reads_alike(a: Seq<Seq<char>>, b: Seq<Seq<char>>) -> bool {
    a.len() == b.len() && forall|i: int| 0 <= i < a.len() ==> #[trigger] trim(a[i]) == trim(b[i])
}

/// Lines that read alike are read alike: a read looks at a line only trimmed.
pub proof fn lemma_read_alike(a: Seq<Seq<char>>, b: Seq<Seq<char>>)
    requires
        reads_alike(a, b),
    ensures
        read_lines(a) == read_lines(b),
    decreases a.len(),
{
    if a.len() > 0 {
        assert(reads_alike(a.drop_last(), b.drop_last())) by {
            assert forall|i: int| 0 <= i < a.drop_last().len() implies #[trigger] trim(a.drop_last()[i])
                == trim(b.drop_last()[i]) by {
                assert(trim(a[i]) == trim(b[i]));
            }
        }
        lemma_read_alike(a.drop_last(), b.drop_last());
        assert(trim(a[a.len() - 1]) == trim(b[b.len() - 1]));
    }
}

/// Whether a run of pieces is laid out as a file's: each one line, never
/// empty, and each but the last ended by a line feed.
pub open spec fn laid_out(ps: Seq<Seq<char>>) -> bool {
    forall|i: int|
        0 <= i < ps.len() ==> #[trigger] ps[i].len() > 0 && no_feed(ps[i].drop_last()) && (i < ps.len()
            - 1 ==> ps[i].last() == '\n')
}

/// Each piece's line without its ending.
pub open spec fn raws(ps: Seq<Seq<char>>) -> Seq<Seq<char>> {
    ps.map_values(|p: Seq<char>| raw_of(p))
}

/// The empty line a file's lines close with where it ends at a line feed, or
/// is empty.
pub open spec fn closing(ps: Seq<Seq<char>>) -> Seq<Seq<char>> {
    if ps.len() == 0 || ps.last().last() == '\n' {
        seq![Seq::empty()]
    } else {
        Seq::empty()
    }
}

/// Whether `w` is carriage returns alone.
pub open spec fn returns_only(w: Seq<char>) -> bool {
    forall|j: int| 0 <= j < w.len() ==> #[trigger] w[j] == '\r'
}

/// What follows a piece's line: its carriage returns, then its line feed where
/// it has one.
pub open spec fn ending_of(p: Seq<char>) -> Seq<char> {
    p.skip(raw_of(p).len() as int)
}

/// A piece is its line and then its ending; the line holds no line feed and
/// does not end with a carriage return; the ending is carriage returns, then the
/// line feed where the piece has one.
pub proof fn lemma_piece_parts(p: Seq<char>)
    requires
        p.len() > 0,
        no_feed(p.drop_last()),
    ensures
        raw_of(p).len() <= p.len(),
        p == raw_of(p) + ending_of(p),
        no_feed(raw_of(p)),
        raw_of(p).len() == 0 || raw_of(p).last() != '\r',
        p.last() == '\n' ==> ending_of(p).len() > 0 && ending_of(p).last() == '\n' && returns_only(
            ending_of(p).drop_last(),
        ),
        p.last() != '\n' ==> returns_only(ending_of(p)) && no_feed(p),
{
    let s1 = strip_end(p, '\n');
    lemma_strip_end(p, '\n');
    let raw = strip_end(s1, '\r');
    lemma_strip_end(s1, '\r');
    assert(s1.len() + 1 >= p.len()) by {
        if s1.len() + 1 < p.len() {
            let j = s1.len() as int;
            assert(p[j] == '\n');
            assert(p.drop_last()[j] == p[j]);
        }
    }
    assert forall|j: int| 0 <= j < raw.len() implies #[trigger] raw[j] != '\n' by {
        assert(raw[j] == s1[j]);
        assert(s1[j] == p[j]);
        if j < p.len() - 1 {
            assert(p.drop_last()[j] == p[j]);
        } else {
            assert(s1[j] == s1.last());
        }
    }
    assert(p =~= raw + ending_of(p));
    if p.last() == '\n' {
        assert(s1.len() == p.len() - 1) by {
            if s1.len() == p.len() {
                assert(s1.last() == p.last());
            }
        }
        assert forall|j: int| 0 <= j < ending_of(p).drop_last().len() implies #[trigger] ending_of(p).drop_last()[j]
            == '\r' by {
            assert(ending_of(p).drop_last()[j] == s1[raw.len() + j]);
        }
    } else {
        assert(s1.len() == p.len());
        assert forall|j: int| 0 <= j < ending_of(p).len() implies #[trigger] ending_of(p)[j] == '\r' by {
            assert(ending_of(p)[j] == s1[raw.len() + j]);
        }
        assert forall|j: int| 0 <= j < p.len() implies #[trigger] p[j] != '\n' by {
            if j < p.len() - 1 {
                assert(p.drop_last()[j] == p[j]);
            }
        }
    }
}

/// One piece's lines read as its line without its ending, and the empty line
/// after its line feed where it has one.
pub proof fn lemma_piece_reads(p: Seq<char>)
    requires
        p.len() > 0,
        no_feed(p.drop_last()),
    ensures
        reads_alike(text_lines(p), seq![raw_of(p)] + closing(seq![p])),
{
    lemma_piece_parts(p);
    let raw = raw_of(p);
    let e = ending_of(p);
    let feed = p.last() == '\n';
    let w = if feed {
        e.drop_last()
    } else {
        e
    };
    assert(p =~= raw + w + (if feed {
        seq!['\n']
    } else {
        Seq::empty()
    }));
    lemma_piece_lines(raw, w, feed);
    lemma_trim_cr(raw, w);
    assert(seq![p].last() == p);
}

/// The lines of pieces laid end to end read as each piece's line, and the
/// closing empty line where the last piece ends at a line feed.
pub proof fn lemma_pieces_read(ps: Seq<Seq<char>>)
    requires
        laid_out(ps),
    ensures
        reads_alike(text_lines(join_all(ps)), raws(ps) + closing(ps)),
        join_all(ps).len() == 0 || join_all(ps).last() == ps.last().last(),
        join_all(ps).len() == 0 <==> ps.len() == 0,
    decreases ps.len(),
{
    if ps.len() == 0 {
        assert(split_lines(Seq::<char>::empty()) == seq![Seq::<char>::empty()]);
        assert(text_lines(join_all(ps)) =~= seq![Seq::<char>::empty()]);
        assert(raws(ps) + closing(ps) =~= seq![Seq::<char>::empty()]);
    } else {
        let front = ps.drop_last();
        let p = ps.last();
        assert(laid_out(front)) by {
            assert forall|i: int| 0 <= i < front.len() implies #[trigger] front[i].len() > 0 && no_feed(
                front[i].drop_last(),
            ) && (i < front.len() - 1 ==> front[i].last() == '\n') by {
                assert(front[i] == ps[i]);
            }
        }
        lemma_pieces_read(front);
        assert(ps[ps.len() - 1] == p);
        let a = join_all(front);
        if front.len() > 0 {
            assert(front.last() == ps[ps.len() - 2]);
            assert(front.last().last() == '\n');
        }
        assert(closing(front) == seq![Seq::<char>::empty()]);
        lemma_lines_after_feed(a, p);
        lemma_piece_reads(p);
        assert(join_all(ps) == a + p);
        let la = text_lines(a);
        let lp = text_lines(p);
        let want = raws(ps) + closing(ps);
        assert(closing(ps) =~= closing(seq![p]));
        assert(raws(ps) =~= raws(front).push(raw_of(p)));
        assert(text_lines(join_all(ps)) == la.drop_last() + lp);
        assert(reads_alike(la.drop_last() + lp, want)) by {
            assert forall|i: int| 0 <= i < want.len() implies #[trigger] trim((la.drop_last() + lp)[i])
                == trim(want[i]) by {
                if i < front.len() {
                    assert((la.drop_last() + lp)[i] == la[i]);
                    assert(trim(la[i]) == trim((raws(front) + closing(front))[i]));
                    assert((raws(front) + closing(front))[i] == raws(front)[i]);
                    assert(want[i] == raws(front)[i]);
                } else {
                    let k = i - front.len();
                    assert((la.drop_last() + lp)[i] == lp[k]);
                    assert(trim(lp[k]) == trim((seq![raw_of(p)] + closing(seq![p]))[k]));
                    if k == 0 {
                        assert(want[i] == raw_of(p));
                    } else {
                        assert(want[i] == closing(ps)[k - 1]);
                    }
                }
            }
        }
        assert(p.len() > 0);
        assert((a + p).last() == p.last());
    }
}

/// A run of carriage returns after a line that does not end with one is
/// stripped back to the line.
pub proof fn lemma_strip_returns(x: Seq<char>, w: Seq<char>)
    requires
        returns_only(w),
        x.len() == 0 || x.last() != '\r',
    ensures
        strip_end(x + w, '\r') == x,
    decreases w.len(),
{
    if w.len() == 0 {
        assert(x + w =~= x);
    } else {
        assert((x + w).drop_last() =~= x + w.drop_last());
        assert(returns_only(w.drop_last())) by {
            assert forall|j: int| 0 <= j < w.drop_last().len() implies #[trigger] w.drop_last()[j] == '\r' by {
                assert(w.drop_last()[j] == w[j]);
            }
        }
        assert((x + w).last() == w.last());
        assert(w.last() == w[w.len() - 1]);
        lemma_strip_returns(x, w.drop_last());
    }
}

/// A line that ends on neither a carriage return nor a line feed, followed
/// by a piece's ending, has that line for its own.
pub proof fn lemma_raw_of_line(x: Seq<char>, e: Seq<char>, feed: bool)
    requires
        x.len() == 0 || (x.last() != '\r' && x.last() != '\n'),
        feed ==> e.len() > 0 && e.last() == '\n' && returns_only(e.drop_last()),
        !feed ==> returns_only(e),
    ensures
        raw_of(x + e) == x,
        ending_of(x + e) == e,
{
    let w = if feed {
        e.drop_last()
    } else {
        e
    };
    if feed {
        assert(x + e =~= (x + w).push('\n'));
        assert((x + e).drop_last() =~= x + w);
        if w.len() > 0 {
            assert((x + w).last() == w[w.len() - 1]);
        } else {
            assert(x + w =~= x);
        }
        assert(strip_end(x + w, '\n') == x + w);
        assert(strip_end(x + e, '\n') == x + w);
    } else {
        if w.len() > 0 {
            assert((x + e).last() == e[e.len() - 1]);
        } else {
            assert(x + e =~= x);
        }
        assert(strip_end(x + e, '\n') == x + e);
    }
    lemma_strip_returns(x, w);
    assert((x + e).skip(x.len() as int) =~= e);
}

/// A restated line is one line: it holds no line feed, opens as the reader's
/// did, and ends on something that is not white.
pub proof fn lemma_restated_shape(raw: Seq<char>, key: Seq<char>, at: int, d: Defaults)
    requires
        0 <= at < raw.len(),
        no_feed(raw),
    ensures
        restated(raw, key, at, d).len() > 0,
        no_feed(restated(raw, key, at, d)),
        restated(raw, key, at, d)[0] == raw[0],
        !white_space(restated(raw, key, at, d).last()),
{
    lemma_spellings();
    lemma_said_part(raw, at);
    let word = word_of(d, key);
    let said = said_part(raw, at);
    let rr = restated(raw, key, at, d);
    assert(rr =~= raw.take(at + 1) + seq![' '] + word + said);
    let after = raw.skip(at + 1);
    let cf = comment_from(after, 0);
    lemma_comment_from_bound(after, 0);
    if cf >= 0 {
        let c = after.skip(cf);
        assert(said =~= seq![' '] + crate::text::trim_end(c));
        crate::config::lemma_tail_white_bound(c);
        assert forall|j: int| 1 <= j < said.len() implies #[trigger] said[j] == raw[at + cf + j] && at + cf + j
            < raw.len() by {
            assert(said[j] == crate::text::trim_end(c)[j - 1]);
            crate::config::lemma_tail_white_bound(c);
            assert(crate::text::trim_end(c)[j - 1] == c[j - 1]);
            assert(c[j - 1] == after[cf + j - 1]);
        }
    } else {
        assert(said.len() == 0);
    }
    let n0 = at + 1;
    let n1 = n0 + 1;
    let n2 = n1 + word.len();
    assert forall|j: int| 0 <= j < rr.len() implies #[trigger] rr[j] != '\n' by {
        if j < n0 {
            assert(rr[j] == raw[j]);
        } else if j < n1 {
            assert(rr[j] == ' ');
        } else if j < n2 {
            assert(rr[j] == word[j - n1]);
        } else {
            assert(rr[j] == said[j - n2]);
            if j - n2 >= 1 {
                assert(said[j - n2] == raw[at + cf + j - n2]);
            }
        }
    }
    assert(rr[0] == raw[0]);
    if said.len() > 0 {
        assert(rr.last() == said.last());
    } else {
        assert(rr.last() == word.last());
    }
}

/// The pieces a rewrite writes, one for each piece of the file.
pub open spec fn rewritten_pieces(ps: Seq<Seq<char>>, d: Defaults) -> Seq<Seq<char>>
    decreases ps.len(),
{
    if ps.len() == 0 {
        Seq::empty()
    } else {
        rewritten_pieces(ps.drop_last(), d).push(
            piece_text(rewrite_pieces(ps.drop_last(), d).written, ps.last(), d),
        )
    }
}

/// What a rewrite writes is its pieces laid end to end.
pub proof fn lemma_rewritten_out(ps: Seq<Seq<char>>, d: Defaults)
    ensures
        rewrite_pieces(ps, d).out == join_all(rewritten_pieces(ps, d)),
        rewritten_pieces(ps, d).len() == ps.len(),
    decreases ps.len(),
{
    if ps.len() > 0 {
        lemma_rewritten_out(ps.drop_last(), d);
        assert(rewritten_pieces(ps, d).drop_last() =~= rewritten_pieces(ps.drop_last(), d));
    }
}

/// What a piece becomes: the same ending after its line, restated where the
/// rewrite owns it and as it was otherwise; so it opens and closes as the
/// piece did.
pub proof fn lemma_piece_text(written: Seq<Seq<char>>, p: Seq<char>, d: Defaults)
    requires
        p.len() > 0,
        no_feed(p.drop_last()),
    ensures
        piece_text(written, p, d).len() > 0,
        no_feed(piece_text(written, p, d).drop_last()),
        (piece_text(written, p, d).last() == '\n') == (p.last() == '\n'),
        piece_text(written, p, d)[0] == p[0],
        raw_of(piece_text(written, p, d)) == (match owned_key(raw_of(p), written) {
            Some((key, at)) => restated(raw_of(p), key, at, d),
            None => raw_of(p),
        }),
{
    lemma_piece_parts(p);
    let raw = raw_of(p);
    let e = ending_of(p);
    let q = piece_text(written, p, d);
    match owned_key(raw, written) {
        Some((key, at)) => {
            crate::config::lemma_owned_is_read(raw, written);
            lemma_restated_shape(raw, key, at, d);
            let rr = restated(raw, key, at, d);
            assert(q == rr + e);
            lemma_raw_of_line(rr, e, p.last() == '\n');
            assert(q[0] == rr[0]);
            assert(raw[0] == p[0]);
            if p.last() == '\n' {
                assert(q.last() == e.last());
                assert(p.last() == e.last());
                assert forall|j: int| 0 <= j < q.drop_last().len() implies #[trigger] q.drop_last()[j] != '\n' by {
                    if j < rr.len() {
                        assert(q.drop_last()[j] == rr[j]);
                    } else {
                        assert(q.drop_last()[j] == e.drop_last()[j - rr.len()]);
                    }
                }
            } else {
                if e.len() > 0 {
                    assert(q.last() == e.last());
                    assert(p.last() == e.last());
                } else {
                    assert(q =~= rr);
                    assert(rr.last() != '\n');
                }
                assert forall|j: int| 0 <= j < q.drop_last().len() implies #[trigger] q.drop_last()[j] != '\n' by {
                    if j < rr.len() {
                        assert(q.drop_last()[j] == rr[j]);
                    } else {
                        assert(q.drop_last()[j] == e[j - rr.len()]);
                    }
                }
            }
        },
        None => {
            assert(q == raw + e);
            assert(q == p);
        },
    }
}

/// The pieces a rewrite writes read, line for line, as the file's own do, but
/// for each toggle the file sets, which reads as the value written; and what
/// the rewrite has restated are the toggles the read has met, in order.
pub proof fn lemma_reread_pieces(ps: Seq<Seq<char>>, d: Defaults)
    requires
        laid_out(ps),
        read_lines(raws(ps)) is Ok,
    ensures
        read_lines(raws(rewritten_pieces(ps, d))) == Ok::<Reading, Fault>(
            rewritten_reading(read_lines(raws(ps))->Ok_0, d),
        ),
        rewrite_pieces(ps, d).written == toggles_seen(read_lines(raws(ps))->Ok_0.seen),
        laid_out(rewritten_pieces(ps, d)),
        rewritten_pieces(ps, d).len() == ps.len(),
        ps.len() > 0 ==> rewritten_pieces(ps, d)[0][0] == ps[0][0] && (rewritten_pieces(ps, d).last().last()
            == '\n') == (ps.last().last() == '\n'),
    decreases ps.len(),
{
    if ps.len() == 0 {
        let r = read_lines(raws(ps))->Ok_0;
        assert(raws(ps) =~= Seq::<Seq<char>>::empty());
        assert(raws(rewritten_pieces(ps, d)) =~= Seq::<Seq<char>>::empty());
        assert(adopted(r.config, r.seen, d) == r.config);
    } else {
        let front = ps.drop_last();
        let p = ps.last();
        let n = ps.len();
        assert(laid_out(front)) by {
            assert forall|i: int| 0 <= i < front.len() implies #[trigger] front[i].len() > 0 && no_feed(
                front[i].drop_last(),
            ) && (i < front.len() - 1 ==> front[i].last() == '\n') by {
                assert(front[i] == ps[i]);
            }
        }
        assert(ps[n - 1] == p);
        assert(raws(ps) =~= raws(front).push(raw_of(p)));
        assert(raws(ps).drop_last() =~= raws(front));
        let raw = raw_of(p);
        assert(read_lines(raws(front)) is Ok);
        lemma_reread_pieces(front, d);
        let r = read_lines(raws(front))->Ok_0;
        let w = rewrite_pieces(front, d);
        let qs0 = rewritten_pieces(front, d);
        let q = piece_text(w.written, p, d);
        let qs = rewritten_pieces(ps, d);
        assert(qs == qs0.push(q));
        lemma_piece_text(w.written, p, d);
        assert(raws(qs) =~= raws(qs0).push(raw_of(q)));
        assert(raws(qs).drop_last() =~= raws(qs0));
        let r1 = read_lines(raws(ps))->Ok_0;
        assert(read_line(r, n as usize, raw) == Ok::<Reading, Fault>(r1));
        let rw = rewritten_reading(r, d);
        lemma_owned_is_read(raw, w.written);
        match owned_key(raw, w.written) {
            Some((key, at)) => {
                assert(seen_on(r.seen, key) is None);
                lemma_restated_reads(raw, w.written, d, rw, n as usize, key, at);
                let text = trim(raw);
                let eq = crate::config::first_at(text, '=');
                let value = crate::config::value_text(text.skip(eq + 1));
                assert(key == trim(text.take(eq)));
                let v = value == "on"@;
                crate::config::lemma_names_distinct();
                assert(!is_valued(key));
                assert(r1 == Reading {
                    config: crate::config::with_toggle(r.config, key, v),
                    seen: r.seen.push((key, n as usize)),
                });
                lemma_adopt_toggle(r.config, r.seen, d, key, v, n as usize);
            },
            None => {
                if sets_something(raw) && is_toggle(line_key(raw)) {
                    assert(w.written.contains(line_key(raw)));
                    lemma_toggles_seen_contains(r.seen, line_key(raw));
                    assert(false);
                }
                if sets_something(raw) && is_valued(line_key(raw)) {
                    let value = crate::config::value_text(
                        trim(raw).skip(crate::config::first_at(trim(raw), '=') + 1),
                    );
                    lemma_adopt_pattern(r.config, r.seen, d, value, n as usize);
                }
            },
        }
        assert(qs.len() == ps.len());
        assert forall|i: int| 0 <= i < qs.len() implies #[trigger] qs[i].len() > 0 && no_feed(qs[i].drop_last())
            && (i < qs.len() - 1 ==> qs[i].last() == '\n') by {
            if i < qs.len() - 1 {
                assert(qs[i] == qs0[i]);
            } else {
                assert(qs[i] == q);
                if i < qs.len() - 1 {
                }
            }
        }
        if front.len() > 0 {
            assert(qs[0] == qs0[0]);
            assert(ps[0] == front[0]);
        } else {
            assert(qs[0] == q);
            assert(ps[0] == p);
        }
    }
}

/// A toggle's name is letters: never empty, and none of its characters is
/// white, a `#`, an `=` or a line's end.
pub proof fn lemma_key_letters(key: Seq<char>)
    requires
        is_toggle(key),
    ensures
        key.len() > 0,
        forall|j: int|
            0 <= j < key.len() ==> 'a' <= #[trigger] key[j] && key[j] <= 'z',
{
    lemma_spellings();
}

/// A line that sets a toggle, as a rewrite appends one.
pub open spec fn set_line(key: Seq<char>, c: Defaults) -> Seq<char> {
    key + " = "@ + word_of(c, key)
}

/// An appended line reads as its toggle set to the value it spells.
pub proof fn lemma_set_line_reads(r: Reading, n: usize, key: Seq<char>, c: Defaults)
    requires
        is_toggle(key),
        seen_on(r.seen, key) is None,
    ensures
        read_line(r, n, set_line(key, c)) == Ok::<Reading, Fault>(
            Reading { config: with_toggle(r.config, key, toggle_of(c, key)), seen: r.seen.push((key, n)) },
        ),
        set_line(key, c).len() > 0,
        set_line(key, c)[0] == key[0],
        !white_space(set_line(key, c).last()),
        no_feed(set_line(key, c)),
{
    lemma_key_letters(key);
    lemma_spellings();
    let word = word_of(c, key);
    lemma_word_trims(word);
    let x = set_line(key, c);
    assert(" = "@ == seq![' ', '=', ' ']) by {
        reveal_strlit(" = ");
    }
    assert(x =~= key + seq![' ', '=', ' '] + word);
    let k = key.len() as int;
    assert forall|j: int| 0 <= j < x.len() implies #[trigger] x[j] != '\n' by {
        if j < k {
            assert(x[j] == key[j]);
        } else if j >= k + 3 {
            assert(x[j] == word[j - k - 3]);
        }
    }
    assert(!white_space(x[0])) by {
        assert(x[0] == key[0]);
    }
    assert(x.last() == word.last());
    assert(!white_space(x.last())) by {
        assert(word.last() == word[word.len() - 1]);
    }
    assert(crate::text::lead_white(x) == 0);
    assert(crate::text::tail_white(x) == 0);
    assert(trim(x) =~= x);
    assert forall|j: int| 0 <= j < k + 1 implies #[trigger] x[j] != '=' by {
        if j < k {
            assert(x[j] == key[j]);
        }
    }
    lemma_first_at_is(x, '=', k + 1);
    assert(x.take(k + 1) =~= key + seq![' ']);
    assert(all_white(seq![' ']));
    lemma_trim_white_tail(key, seq![' ']);
    assert(crate::text::lead_white(key) == 0) by {
        assert(!white_space(key[0]));
    }
    assert(crate::text::tail_white(key) == 0) by {
        assert(!white_space(key[key.len() - 1]));
    }
    assert(trim(key) =~= key);
    let after = x.skip(k + 2);
    assert(after =~= seq![' '] + word);
    assert forall|j: int| 0 <= j < after.len() implies !#[trigger] opens_comment(after, j) by {
        if j > 0 {
            assert(after[j] == word[j - 1]);
        }
    }
    lemma_no_comment(after, 0);
    assert(value_text(after) == word);
    lemma_names_distinct();
    assert(!is_valued(key));
    assert(word == "on"@ <==> toggle_of(c, key));
}

/// The lines a rewrite appends, one for each of `keys` it has not written,
/// each with its ending.
pub open spec fn missing_pieces(
    keys: Seq<Seq<char>>,
    written: Seq<Seq<char>>,
    c: Defaults,
    end: Seq<char>,
) -> Seq<Seq<char>>
    decreases keys.len(),
{
    if keys.len() == 0 {
        Seq::empty()
    } else {
        let rest = missing_pieces(keys.drop_last(), written, c, end);
        if written.contains(keys.last()) {
            rest
        } else {
            rest.push(set_line(keys.last(), c) + end)
        }
    }
}

/// Settings once each of `keys` the rewrite has not written takes its value
/// from `d`.
pub open spec fn filled(c: Defaults, keys: Seq<Seq<char>>, written: Seq<Seq<char>>, d: Defaults) -> Defaults
    decreases keys.len(),
{
    if keys.len() == 0 {
        c
    } else {
        let before = filled(c, keys.drop_last(), written, d);
        if written.contains(keys.last()) {
            before
        } else {
            with_toggle(before, keys.last(), toggle_of(d, keys.last()))
        }
    }
}

/// The appended lines lay end to end into what the rewrite appends, each one
/// line ended by a line feed, and read as the toggles they set.
pub proof fn lemma_missing_laid_out(keys: Seq<Seq<char>>, written: Seq<Seq<char>>, c: Defaults, end: Seq<char>)
    requires
        forall|i: int| 0 <= i < keys.len() ==> is_toggle(#[trigger] keys[i]),
        end.len() > 0,
        end.last() == '\n',
        returns_only(end.drop_last()),
    ensures
        missing_lines(keys, written, c, end) == join_all(missing_pieces(keys, written, c, end)),
        laid_out(missing_pieces(keys, written, c, end)),
        closing(missing_pieces(keys, written, c, end)) == seq![Seq::<char>::empty()],
        forall|i: int|
            0 <= i < missing_pieces(keys, written, c, end).len() ==> #[trigger] missing_pieces(
                keys,
                written,
                c,
                end,
            )[i].last() == '\n',
        forall|i: int|
            0 <= i < missing_pieces(keys, written, c, end).len() ==> 'a' <= #[trigger] missing_pieces(
                keys,
                written,
                c,
                end,
            )[i][0] && missing_pieces(keys, written, c, end)[i][0] <= 'z',
    decreases keys.len(),
{
    let ms = missing_pieces(keys, written, c, end);
    if keys.len() == 0 {
        assert(closing(ms) =~= seq![Seq::<char>::empty()]);
    } else {
        let front = keys.drop_last();
        assert forall|i: int| 0 <= i < front.len() implies is_toggle(#[trigger] front[i]) by {
            assert(front[i] == keys[i]);
        }
        lemma_missing_laid_out(front, written, c, end);
        let ms0 = missing_pieces(front, written, c, end);
        let key = keys.last();
        assert(is_toggle(keys[keys.len() - 1]));
        if !written.contains(key) {
            let sl = set_line(key, c);
            let q = sl + end;
            lemma_set_line_reads(Reading { config: c, seen: Seq::empty() }, 0, key, c);
            assert(ms == ms0.push(q));
            assert(q.last() == '\n');
            assert(no_feed(q.drop_last())) by {
                assert forall|j: int| 0 <= j < q.drop_last().len() implies #[trigger] q.drop_last()[j] != '\n' by {
                    if j < sl.len() {
                        assert(q.drop_last()[j] == sl[j]);
                    } else {
                        assert(q.drop_last()[j] == end.drop_last()[j - sl.len()]);
                    }
                }
            }
            assert forall|i: int| 0 <= i < ms.len() implies #[trigger] ms[i].len() > 0 && no_feed(
                ms[i].drop_last(),
            ) && (i < ms.len() - 1 ==> ms[i].last() == '\n') by {
                if i < ms0.len() {
                    assert(ms[i] == ms0[i]);
                    assert(ms0[i].last() == '\n');
                }
            }
            assert(closing(ms) =~= seq![Seq::<char>::empty()]);
            assert(missing_lines(keys, written, c, end) =~= join_all(ms0) + q);
            assert(ms.drop_last() =~= ms0);
            assert(join_all(ms) == join_all(ms0) + q);
            assert forall|i: int| 0 <= i < ms.len() implies #[trigger] ms[i].last() == '\n' by {
                if i < ms0.len() {
                    assert(ms[i] == ms0[i]);
                }
            }
            lemma_key_letters(key);
            assert(q[0] == key[0]);
            assert forall|i: int| 0 <= i < ms.len() implies 'a' <= #[trigger] ms[i][0] && ms[i][0] <= 'z' by {
                if i < ms0.len() {
                    assert(ms[i] == ms0[i]);
                } else {
                    assert(ms[i] == q);
                }
            }
        }
    }
}

/// The appended lines, read after a read that has met none of the toggles
/// they set, set each to its value; the read's record of every other key
/// stays as it was.
pub proof fn lemma_missing_reads(
    lines: Seq<Seq<char>>,
    keys: Seq<Seq<char>>,
    written: Seq<Seq<char>>,
    d: Defaults,
    end: Seq<char>,
)
    requires
        read_lines(lines) is Ok,
        forall|i: int| 0 <= i < keys.len() ==> is_toggle(#[trigger] keys[i]),
        keys.no_duplicates(),
        forall|i: int|
            0 <= i < keys.len() && !written.contains(#[trigger] keys[i]) ==> seen_on(
                read_lines(lines)->Ok_0.seen,
                keys[i],
            ) is None,
        end.len() > 0,
        end.last() == '\n',
        returns_only(end.drop_last()),
    ensures
        read_lines(lines + raws(missing_pieces(keys, written, d, end))) is Ok,
        read_lines(lines + raws(missing_pieces(keys, written, d, end)))->Ok_0.config == filled(
            read_lines(lines)->Ok_0.config,
            keys,
            written,
            d,
        ),
        forall|k: Seq<char>|
            !keys.contains(k) ==> #[trigger] seen_on(
                read_lines(lines + raws(missing_pieces(keys, written, d, end)))->Ok_0.seen,
                k,
            ) == seen_on(read_lines(lines)->Ok_0.seen, k),
    decreases keys.len(),
{
    let r0 = read_lines(lines)->Ok_0;
    let ms = missing_pieces(keys, written, d, end);
    if keys.len() == 0 {
        assert(lines + raws(ms) =~= lines);
    } else {
        let front = keys.drop_last();
        let key = keys.last();
        assert(is_toggle(keys[keys.len() - 1]));
        assert forall|i: int| 0 <= i < front.len() implies is_toggle(#[trigger] front[i]) by {
            assert(front[i] == keys[i]);
        }
        assert forall|i: int|
            0 <= i < front.len() && !written.contains(#[trigger] front[i]) implies seen_on(r0.seen, front[i])
                is None by {
            assert(front[i] == keys[i]);
        }
        assert(front.no_duplicates()) by {
            assert forall|i: int, j: int| 0 <= i < front.len() && 0 <= j < front.len() && i != j implies front[i]
                != front[j] by {
                assert(front[i] == keys[i]);
                assert(front[j] == keys[j]);
            }
        }
        lemma_missing_reads(lines, front, written, d, end);
        let ms0 = missing_pieces(front, written, d, end);
        let r1 = read_lines(lines + raws(ms0))->Ok_0;
        if written.contains(key) {
            assert(ms == ms0);
            assert forall|k: Seq<char>| !keys.contains(k) implies #[trigger] seen_on(r1.seen, k) == seen_on(
                r0.seen,
                k,
            ) by {
                if front.contains(k) {
                    let i = choose|i: int| 0 <= i < front.len() && front[i] == k;
                    assert(keys[i] == k);
                }
            }
        } else {
            let sl = set_line(key, d);
            let q = sl + end;
            assert(ms == ms0.push(q));
            assert(!front.contains(key)) by {
                if front.contains(key) {
                    let i = choose|i: int| 0 <= i < front.len() && front[i] == key;
                    assert(keys[i] == keys[keys.len() - 1]);
                }
            }
            assert(seen_on(r1.seen, key) is None);
            lemma_set_line_reads(r1, ((lines + raws(ms0)).len() + 1) as usize, key, d);
            lemma_raw_of_line(sl, end, true);
            assert(raws(ms) =~= raws(ms0).push(sl));
            let all = lines + raws(ms);
            assert(all =~= (lines + raws(ms0)).push(sl));
            assert(all.drop_last() =~= lines + raws(ms0));
            assert forall|k: Seq<char>| !keys.contains(k) implies #[trigger] seen_on(
                read_lines(all)->Ok_0.seen,
                k,
            ) == seen_on(r0.seen, k) by {
                assert(k != key) by {
                    assert(keys[keys.len() - 1] == key);
                }
                lemma_seen_on_push(r1.seen, key, ((lines + raws(ms0)).len() + 1) as usize, k);
                if front.contains(k) {
                    let i = choose|i: int| 0 <= i < front.len() && front[i] == k;
                    assert(keys[i] == k);
                }
            }
        }
    }
}

/// The ending a rewrite appends with is the first ending it met: a line feed
/// after carriage returns, unless the file is one line with no line feed, in
/// which case it is that line's carriage returns; and a file whose first line
/// has a line feed gives one.
pub proof fn lemma_ending_shape(ps: Seq<Seq<char>>, d: Defaults)
    requires
        laid_out(ps),
    ensures
        rewrite_pieces(ps, d).ending matches Some(e) ==> (e.len() > 0 && e.last() == '\n' && returns_only(
            e.drop_last(),
        )) || (ps.len() == 1 && no_feed(ps[0]) && ps[0].last() == '\r'),
        ps.len() > 0 && ps[0].last() == '\n' ==> rewrite_pieces(ps, d).ending is Some,
    decreases ps.len(),
{
    if ps.len() > 0 {
        let front = ps.drop_last();
        let p = ps.last();
        assert(ps[ps.len() - 1] == p);
        assert(laid_out(front)) by {
            assert forall|i: int| 0 <= i < front.len() implies #[trigger] front[i].len() > 0 && no_feed(
                front[i].drop_last(),
            ) && (i < front.len() - 1 ==> front[i].last() == '\n') by {
                assert(front[i] == ps[i]);
            }
        }
        lemma_ending_shape(front, d);
        lemma_piece_parts(p);
        if front.len() > 0 {
            assert(front[0] == ps[0]);
            assert(ps[0].last() == '\n');
        }
        let e = ending_of(p);
        if rewrite_pieces(front, d).ending is None && e.len() > 0 {
            assert(front.len() == 0);
            if p.last() != '\n' {
                assert(p.last() == e.last());
                assert(e.last() == e[e.len() - 1]);
                assert(ps[0] == p);
            }
        }
    }
}

/// Where a toggle stands once another, or itself, is set.
pub proof fn lemma_toggle_of_with(c: Defaults, key: Seq<char>, on: bool, f: Seq<char>)
    requires
        is_toggle(f),
    ensures
        toggle_of(with_toggle(c, key, on), f) == (if f == key {
            on
        } else {
            toggle_of(c, f)
        }),
        with_toggle(c, key, on).hide == c.hide,
{
    lemma_with_toggle(c, key, on);
    lemma_names_distinct();
}

/// Where a toggle stands once a rewrite's appended lines are read.
pub proof fn lemma_filled_toggle(c: Defaults, keys: Seq<Seq<char>>, written: Seq<Seq<char>>, d: Defaults, f: Seq<char>)
    requires
        is_toggle(f),
    ensures
        toggle_of(filled(c, keys, written, d), f) == (if keys.contains(f) && !written.contains(f) {
            toggle_of(d, f)
        } else {
            toggle_of(c, f)
        }),
        filled(c, keys, written, d).hide == c.hide,
    decreases keys.len(),
{
    if keys.len() > 0 {
        let front = keys.drop_last();
        let key = keys.last();
        lemma_filled_toggle(c, front, written, d, f);
        let before = filled(c, front, written, d);
        if !written.contains(key) {
            lemma_toggle_of_with(before, key, toggle_of(d, key), f);
        }
        if keys.contains(f) {
            let i = choose|i: int| 0 <= i < keys.len() && keys[i] == f;
            if i < front.len() {
                assert(front[i] == f);
            }
        }
        if front.contains(f) {
            let i = choose|i: int| 0 <= i < front.len() && front[i] == f;
            assert(keys[i] == f);
        }
        assert(keys[keys.len() - 1] == key);
    }
}

/// Where a toggle stands in the settings a rewrite adopts.
pub proof fn lemma_adopted_toggle(c: Defaults, seen: Seq<(Seq<char>, usize)>, d: Defaults, f: Seq<char>)
    requires
        is_toggle(f),
    ensures
        toggle_of(adopted(c, seen, d), f) == (if seen_on(seen, f) is Some {
            toggle_of(d, f)
        } else {
            toggle_of(c, f)
        }),
        adopted(c, seen, d).hide == c.hide,
{
    lemma_names_distinct();
}

/// A toggle a read has met is among the toggles it set.
pub proof fn lemma_seen_toggle(seen: Seq<(Seq<char>, usize)>, k: Seq<char>)
    requires
        is_toggle(k),
        seen_on(seen, k) is Some,
    ensures
        toggles_seen(seen).contains(k),
    decreases seen.len(),
{
    if seen.len() > 0 {
        let front = seen.drop_last();
        let last = seen.last();
        assert(front.push(last) =~= seen);
        lemma_seen_on_push(front, last.0, last.1, k);
        if seen_on(front, k) is Some {
            lemma_seen_toggle(front, k);
            let i = choose|i: int| 0 <= i < toggles_seen(front).len() && toggles_seen(front)[i] == k;
            if is_toggle(last.0) {
                assert(toggles_seen(seen)[i] == k);
            } else {
                assert(toggles_seen(seen) == toggles_seen(front));
            }
        } else {
            assert(last.0 == k);
            assert(toggles_seen(seen) == toggles_seen(front).push(k));
            assert(toggles_seen(seen)[toggles_seen(front).len() as int] == k);
        }
    }
}

/// Settings that agree on every toggle and on the pattern are the same.
pub proof fn lemma_same_settings(a: Defaults, b: Defaults)
    requires
        forall|f: Seq<char>| is_toggle(f) ==> #[trigger] toggle_of(a, f) == toggle_of(b, f),
        a.hide == b.hide,
    ensures
        a == b,
{
    lemma_names_distinct();
    assert(toggle_of(a, "follow"@) == toggle_of(b, "follow"@));
    assert(toggle_of(a, "rail"@) == toggle_of(b, "rail"@));
    assert(toggle_of(a, "single"@) == toggle_of(b, "single"@));
    assert(toggle_of(a, "overview"@) == toggle_of(b, "overview"@));
    assert(toggle_of(a, "staged"@) == toggle_of(b, "staged"@));
    assert(toggle_of(a, "wrap"@) == toggle_of(b, "wrap"@));
    assert(toggle_of(a, "notes"@) == toggle_of(b, "notes"@));
    assert(toggle_of(a, "icons"@) == toggle_of(b, "icons"@));
    assert(toggle_of(a, "links"@) == toggle_of(b, "links"@));
    assert(toggle_of(a, "persist"@) == toggle_of(b, "persist"@));
}

/// Pieces laid end to end open with the first piece's first character.
pub proof fn lemma_join_opens(ps: Seq<Seq<char>>)
    requires
        ps.len() > 0,
        ps[0].len() > 0,
    ensures
        join_all(ps).len() > 0,
        join_all(ps)[0] == ps[0][0],
    decreases ps.len(),
{
    if ps.len() > 1 {
        let front = ps.drop_last();
        assert(front[0] == ps[0]);
        lemma_join_opens(front);
    } else {
        assert(ps.drop_last() =~= Seq::<Seq<char>>::empty());
        assert(join_all(ps.drop_last()) == Seq::<char>::empty());
        assert(join_all(ps) == join_all(ps.drop_last()) + ps.last());
        assert(join_all(ps) =~= ps[0]);
    }
}

/// An empty line closing a run of lines changes nothing a read gives.
pub proof fn lemma_read_closing(lines: Seq<Seq<char>>)
    ensures
        read_lines(lines + seq![Seq::<char>::empty()]) == read_lines(lines),
{
    let all = lines + seq![Seq::<char>::empty()];
    assert(all.drop_last() =~= lines);
    assert(all.last() == Seq::<char>::empty());
    assert(trim(Seq::<char>::empty()) =~= Seq::<char>::empty()) by {
        assert(crate::text::lead_white(Seq::<char>::empty()) == 0);
        assert(crate::text::tail_white(Seq::<char>::empty()) == 0);
    }
}

/// Lines that read alike, each after lines that read alike, read alike.
pub proof fn lemma_alike_concat(a1: Seq<Seq<char>>, b1: Seq<Seq<char>>, a2: Seq<Seq<char>>, b2: Seq<Seq<char>>)
    requires
        reads_alike(a1, b1),
        reads_alike(a2, b2),
    ensures
        reads_alike(a1 + a2, b1 + b2),
{
    assert forall|i: int| 0 <= i < (a1 + a2).len() implies #[trigger] trim((a1 + a2)[i]) == trim((b1 + b2)[i]) by {
        if i < a1.len() {
            assert(trim(a1[i]) == trim(b1[i]));
        } else {
            assert(trim(a2[i - a1.len()]) == trim(b2[i - a1.len()]));
        }
    }
}

/// Lines that read alike read alike without their last.
pub proof fn lemma_alike_drop_last(a: Seq<Seq<char>>, b: Seq<Seq<char>>)
    requires
        reads_alike(a, b),
        a.len() > 0,
    ensures
        reads_alike(a.drop_last(), b.drop_last()),
{
    assert forall|i: int| 0 <= i < a.drop_last().len() implies #[trigger] trim(a.drop_last()[i]) == trim(
        b.drop_last()[i],
    ) by {
        assert(trim(a[i]) == trim(b[i]));
    }
}

/// The toggles as the file appends them: each a toggle, none twice, and every
/// toggle among them.
pub proof fn lemma_config_keys()
    ensures
        forall|i: int| 0 <= i < config_keys().len() ==> is_toggle(#[trigger] config_keys()[i]),
        config_keys().no_duplicates(),
        forall|f: Seq<char>| is_toggle(f) ==> #[trigger] config_keys().contains(f),
{
    lemma_names_distinct();
    let ks = config_keys();
    assert forall|f: Seq<char>| is_toggle(f) implies #[trigger] ks.contains(f) by {
        if f == "follow"@ {
            assert(ks[0] == f);
        } else if f == "rail"@ {
            assert(ks[1] == f);
        } else if f == "single"@ {
            assert(ks[2] == f);
        } else if f == "overview"@ {
            assert(ks[3] == f);
        } else if f == "staged"@ {
            assert(ks[4] == f);
        } else if f == "wrap"@ {
            assert(ks[5] == f);
        } else if f == "notes"@ {
            assert(ks[6] == f);
        } else if f == "icons"@ {
            assert(ks[7] == f);
        } else if f == "links"@ {
            assert(ks[8] == f);
        } else {
            assert(ks[9] == f);
        }
    }
}

/// A rewrite's pieces, the gap that ends an unended last line, and the
/// appended lines read as the pieces' lines, then the appended ones, then the
/// closing empty line.
pub proof fn lemma_appended_text(qs: Seq<Seq<char>>, ms: Seq<Seq<char>>, end: Seq<char>)
    requires
        laid_out(qs),
        laid_out(ms),
        closing(ms) == seq![Seq::<char>::empty()],
        end.len() > 0,
        end.last() == '\n',
        returns_only(end.drop_last()),
    ensures
        reads_alike(
            text_lines(join_all(qs) + (if qs.len() > 0 && qs.last().last() != '\n' {
                end
            } else {
                Seq::empty()
            }) + join_all(ms)),
            raws(qs) + raws(ms) + seq![Seq::<char>::empty()],
        ),
{
    let out = join_all(qs);
    let m = join_all(ms);
    lemma_pieces_read(ms);
    lemma_pieces_read(qs);
    if qs.len() > 0 && qs.last().last() != '\n' {
        let q = qs.last();
        let n = qs.len() as int;
        assert(qs[n - 1] == q);
        lemma_piece_parts(q);
        let raw = raw_of(q);
        let e = ending_of(q);
        let e2 = e + end;
        assert(e2.last() == '\n');
        assert(returns_only(e2.drop_last())) by {
            assert forall|j: int| 0 <= j < e2.drop_last().len() implies #[trigger] e2.drop_last()[j] == '\r' by {
                if j < e.len() {
                    assert(e2.drop_last()[j] == e[j]);
                } else {
                    assert(e2.drop_last()[j] == end.drop_last()[j - e.len()]);
                }
            }
        }
        if raw.len() > 0 {
            assert(raw.last() != '\n') by {
                assert(raw[raw.len() - 1] != '\n');
            }
        }
        lemma_raw_of_line(raw, e2, true);
        let q2 = q + end;
        assert(q2 =~= raw + e2);
        let qs2 = qs.update(n - 1, q2);
        assert(qs2.drop_last() =~= qs.drop_last());
        assert(join_all(qs2) == join_all(qs.drop_last()) + q2);
        assert(join_all(qs2) =~= out + end);
        assert(no_feed(q2.drop_last())) by {
            assert forall|j: int| 0 <= j < q2.drop_last().len() implies #[trigger] q2.drop_last()[j] != '\n' by {
                if j < q.len() {
                    assert(q2.drop_last()[j] == q[j]);
                } else {
                    assert(q2.drop_last()[j] == end.drop_last()[j - q.len()]);
                }
            }
        }
        assert(laid_out(qs2)) by {
            assert forall|i: int| 0 <= i < qs2.len() implies #[trigger] qs2[i].len() > 0 && no_feed(
                qs2[i].drop_last(),
            ) && (i < qs2.len() - 1 ==> qs2[i].last() == '\n') by {
                if i < n - 1 {
                    assert(qs2[i] == qs[i]);
                }
            }
        }
        assert(raws(qs2) =~= raws(qs));
        assert(closing(qs2) == seq![Seq::<char>::empty()]) by {
            assert(qs2.last() == q2);
        }
        lemma_pieces_read(qs2);
        let a = out + end;
        lemma_lines_after_feed(a, m);
        assert(out + end + m == a + m);
        let la = text_lines(a);
        assert(la.len() > 0);
        lemma_alike_drop_last(la, raws(qs) + seq![Seq::<char>::empty()]);
        assert((raws(qs) + seq![Seq::<char>::empty()]).drop_last() =~= raws(qs));
        lemma_alike_concat(la.drop_last(), raws(qs), text_lines(m), raws(ms) + seq![Seq::<char>::empty()]);
        assert(raws(qs) + (raws(ms) + seq![Seq::<char>::empty()]) =~= raws(qs) + raws(ms) + seq![
            Seq::<char>::empty(),
        ]);
    } else {
        assert(closing(qs) == seq![Seq::<char>::empty()]);
        assert(out + Seq::<char>::empty() =~= out);
        lemma_lines_after_feed(out, m);
        let la = text_lines(out);
        assert(la.len() > 0);
        lemma_alike_drop_last(la, raws(qs) + seq![Seq::<char>::empty()]);
        assert((raws(qs) + seq![Seq::<char>::empty()]).drop_last() =~= raws(qs));
        lemma_alike_concat(la.drop_last(), raws(qs), text_lines(m), raws(ms) + seq![Seq::<char>::empty()]);
        assert(raws(qs) + (raws(ms) + seq![Seq::<char>::empty()]) =~= raws(qs) + raws(ms) + seq![
            Seq::<char>::empty(),
        ]);
    }
}

/// The settings a saved file reads back as: the pane's toggles, the file's
/// pattern.
pub open spec fn saved_settings(pane: Defaults, file: Defaults) -> Defaults {
    Defaults { hide: file.hide, ..pane }
}

/// What a rewrite adopts of a read, with every toggle it appends then set,
/// is the pane's toggles and the read's pattern.
pub proof fn lemma_all_toggles_set(r: Reading, written: Seq<Seq<char>>, d: Defaults)
    requires
        written == toggles_seen(r.seen),
    ensures
        filled(adopted(r.config, r.seen, d), config_keys(), written, d) == saved_settings(d, r.config),
        !any_missing(config_keys(), written) ==> adopted(r.config, r.seen, d) == saved_settings(d, r.config),
{
    lemma_config_keys();
    let a = adopted(r.config, r.seen, d);
    let f_all = filled(a, config_keys(), written, d);
    let want = saved_settings(d, r.config);
    assert forall|f: Seq<char>| is_toggle(f) implies #[trigger] toggle_of(f_all, f) == toggle_of(want, f) by {
        lemma_filled_toggle(a, config_keys(), written, d, f);
        lemma_adopted_toggle(r.config, r.seen, d, f);
        assert(config_keys().contains(f));
        if written.contains(f) {
            lemma_toggles_seen_contains(r.seen, f);
        }
        lemma_names_distinct();
    }
    lemma_filled_toggle(a, config_keys(), written, d, "follow"@);
    lemma_adopted_toggle(r.config, r.seen, d, "follow"@);
    lemma_same_settings(f_all, want);
    if !any_missing(config_keys(), written) {
        assert forall|f: Seq<char>| is_toggle(f) implies #[trigger] toggle_of(a, f) == toggle_of(want, f) by {
            lemma_adopted_toggle(r.config, r.seen, d, f);
            assert(config_keys().contains(f));
            let i = choose|i: int| 0 <= i < config_keys().len() && config_keys()[i] == f;
            assert(written.contains(config_keys()[i]));
            lemma_toggles_seen_contains(r.seen, f);
            lemma_names_distinct();
        }
        lemma_same_settings(a, want);
    }
}

/// A file that reads, read piece by piece: its pieces are laid out, and their
/// lines read as the file does.
pub proof fn lemma_source_reads(source: Seq<char>, file: Defaults)
    requires
        config_of(source) == Ok::<Defaults, Fault>(file),
    ensures
        laid_out(pieces(without_mark(source))),
        join_all(pieces(without_mark(source))) == without_mark(source),
        read_lines(raws(pieces(without_mark(source)))) is Ok,
        read_lines(raws(pieces(without_mark(source))))->Ok_0.config == file,
{
    let body = without_mark(source);
    let ps = pieces(body);
    lemma_pieces_shape(body);
    assert(laid_out(ps)) by {
        assert forall|i: int| 0 <= i < ps.len() implies #[trigger] ps[i].len() > 0 && no_feed(ps[i].drop_last())
            && (i < ps.len() - 1 ==> ps[i].last() == '\n') by {
            assert(piece_shaped(ps[i], i == ps.len() - 1));
        }
    }
    lemma_pieces_read(ps);
    lemma_read_alike(text_lines(body), raws(ps) + closing(ps));
    if closing(ps).len() == 1 {
        assert(closing(ps) == seq![Seq::<char>::empty()]);
        lemma_read_closing(raws(ps));
    } else {
        assert(raws(ps) + closing(ps) =~= raws(ps));
    }
}

/// A rewrite that appends nothing reads back as what it adopted.
pub proof fn lemma_complete_reads_back(source: Seq<char>, pane: Defaults)
    requires
        laid_out(pieces(without_mark(source))),
        join_all(pieces(without_mark(source))) == without_mark(source),
        read_lines(raws(pieces(without_mark(source)))) is Ok,
        !any_missing(
            config_keys(),
            rewrite_pieces(pieces(without_mark(source)), pane).written,
        ),
    ensures
        read_lines(text_lines(without_mark(rewritten(source, pane)))) == Ok::<Reading, Fault>(
            rewritten_reading(read_lines(raws(pieces(without_mark(source))))->Ok_0, pane),
        ),
{
    let body = without_mark(source);
    let ps = pieces(body);
    lemma_reread_pieces(ps, pane);
    lemma_rewritten_out(ps, pane);
    let w = rewrite_pieces(ps, pane);
    let qs = rewritten_pieces(ps, pane);
    lemma_pieces_read(qs);
    let mark = source.len() > 0 && source[0] == '\u{FEFF}';
    let head = if mark {
        seq!['\u{FEFF}'] + w.out
    } else {
        w.out
    };
    if ps.len() > 0 {
        lemma_join_opens(ps);
        lemma_join_opens(qs);
        assert(w.out[0] == body[0]);
    }
    assert(rewritten(source, pane) == head);
    assert(without_mark(head) == w.out) by {
        if mark {
            assert(head.drop_first() =~= w.out);
        } else {
            assert(body == source);
        }
    }
    assert(closing(qs) == closing(ps));
    lemma_read_alike(text_lines(w.out), raws(qs) + closing(qs));
    if closing(qs).len() == 1 {
        assert(closing(qs) == seq![Seq::<char>::empty()]);
        lemma_read_closing(raws(qs));
    } else {
        assert(raws(qs) + closing(qs) =~= raws(qs));
    }
}

/// The text a rewrite ends with, past the mark: its pieces, the gap, and the
/// appended lines.
pub proof fn lemma_appended_body(source: Seq<char>, pane: Defaults, end: Seq<char>)
    requires
        laid_out(pieces(without_mark(source))),
        join_all(pieces(without_mark(source))) == without_mark(source),
        read_lines(raws(pieces(without_mark(source)))) is Ok,
        any_missing(config_keys(), rewrite_pieces(pieces(without_mark(source)), pane).written),
        end.len() > 0,
        end.last() == '\n',
        returns_only(end.drop_last()),
        end == (match rewrite_pieces(pieces(without_mark(source)), pane).ending {
            Some(e) => e,
            None => seq!['\n'],
        }),
    ensures
        without_mark(rewritten(source, pane)) == join_all(rewritten_pieces(pieces(without_mark(source)), pane))
            + (if rewritten_pieces(pieces(without_mark(source)), pane).len() > 0 && rewritten_pieces(
            pieces(without_mark(source)),
            pane,
        ).last().last() != '\n' {
            end
        } else {
            Seq::empty()
        }) + join_all(
            missing_pieces(config_keys(), rewrite_pieces(pieces(without_mark(source)), pane).written, pane, end),
        ),
{
    let body = without_mark(source);
    let ps = pieces(body);
    lemma_rewritten_out(ps, pane);
    let w = rewrite_pieces(ps, pane);
    let qs = rewritten_pieces(ps, pane);
    lemma_reread_pieces(ps, pane);
    lemma_pieces_read(qs);
    lemma_pieces_read(ps);
    let mark = source.len() > 0 && source[0] == '\u{FEFF}';
    let head = if mark {
        seq!['\u{FEFF}'] + w.out
    } else {
        w.out
    };
    lemma_config_keys();
    let ms = missing_pieces(config_keys(), w.written, pane, end);
    assert(ms.len() > 0) by {
        let i = choose|i: int| 0 <= i < config_keys().len() && !w.written.contains(#[trigger] config_keys()[i]);
        lemma_missing_count(config_keys(), w.written, pane, end, i);
    }
    lemma_missing_laid_out(config_keys(), w.written, pane, end);
    let gap = if body.len() > 0 && !(head.len() > 0 && head.last() == '\n') {
        end
    } else {
        Seq::empty()
    };
    let gap2 = if qs.len() > 0 && qs.last().last() != '\n' {
        end
    } else {
        Seq::empty()
    };
    lemma_reread_pieces(ps, pane);
    assert(gap == gap2) by {
        if ps.len() > 0 {
            assert(head.last() == w.out.last());
        }
    }
    let t = w.out + gap + join_all(ms);
    assert(rewritten(source, pane) == head + gap + crate::config::missing_lines(config_keys(), w.written, pane, end));
    assert(without_mark(rewritten(source, pane)) == t) by {
        if mark {
            assert((head + gap + join_all(ms)).drop_first() =~= t);
        } else {
            assert(body == source);
            if ps.len() == 0 {
                assert(t =~= join_all(ms));
                lemma_join_opens(ms);
                assert('a' <= ms[0][0]);
            } else {
                lemma_join_opens(ps);
                lemma_join_opens(qs);
                assert(t[0] == w.out[0]);
            }
        }
    }
}

/// A file a save writes reads back as the pane's toggles and the file's own
/// pattern, whenever the file it rewrote read at all; except a file of one
/// line with no line feed that ends with a carriage return, whose appended
/// lines would join that line.
pub proof fn law_saved_config_reads_back(source: Seq<char>, file: Defaults, pane: Defaults)
    requires
        config_of(source) == Ok::<Defaults, Fault>(file),
        !(no_feed(without_mark(source)) && without_mark(source).len() > 0 && without_mark(source).last()
            == '\r'),
    ensures
        config_of(rewritten(source, pane)) == Ok::<Defaults, Fault>(saved_settings(pane, file)),
{
    let body = without_mark(source);
    let ps = pieces(body);
    lemma_source_reads(source, file);
    let r = read_lines(raws(ps))->Ok_0;
    lemma_reread_pieces(ps, pane);
    let w = rewrite_pieces(ps, pane);
    let qs = rewritten_pieces(ps, pane);
    let rw = rewritten_reading(r, pane);
    lemma_all_toggles_set(r, w.written, pane);
    if !any_missing(config_keys(), w.written) {
        lemma_complete_reads_back(source, pane);
    } else {
        let end = match w.ending {
            Some(e) => e,
            None => seq!['\n'],
        };
        lemma_ending_shape(ps, pane);
        if w.ending is Some && ps.len() == 1 && no_feed(ps[0]) && ps[0].last() == '\r' {
            assert(ps.drop_last() =~= Seq::<Seq<char>>::empty());
            assert(join_all(ps.drop_last()) == Seq::<char>::empty());
            assert(join_all(ps) =~= ps[0]);
            assert(false);
        }
        assert(end.len() > 0 && end.last() == '\n' && returns_only(end.drop_last()));
        lemma_config_keys();
        let ms = missing_pieces(config_keys(), w.written, pane, end);
        lemma_missing_laid_out(config_keys(), w.written, pane, end);
        lemma_appended_body(source, pane, end);
        let t = without_mark(rewritten(source, pane));
        lemma_appended_text(qs, ms, end);
        lemma_read_alike(text_lines(t), raws(qs) + raws(ms) + seq![Seq::<char>::empty()]);
        lemma_read_closing(raws(qs) + raws(ms));
        assert forall|i: int|
            0 <= i < config_keys().len() && !w.written.contains(#[trigger] config_keys()[i]) implies seen_on(
                rw.seen,
                config_keys()[i],
            ) is None by {
            if seen_on(r.seen, config_keys()[i]) is Some {
                lemma_seen_toggle(r.seen, config_keys()[i]);
            }
        }
        lemma_missing_reads(raws(qs), config_keys(), w.written, pane, end);
    }
}

/// Where some key is not written, a rewrite appends a line.
pub proof fn lemma_missing_count(
    keys: Seq<Seq<char>>,
    written: Seq<Seq<char>>,
    c: Defaults,
    end: Seq<char>,
    i: int,
)
    requires
        0 <= i < keys.len(),
        !written.contains(keys[i]),
    ensures
        missing_pieces(keys, written, c, end).len() > 0,
    decreases keys.len(),
{
    if i < keys.len() - 1 {
        let front = keys.drop_last();
        assert(front[i] == keys[i]);
        lemma_missing_count(front, written, c, end, i);
    }
}

} // verus!
