//! Mathematical model of splitting text into words and joining words back,
//! with the lemmas that relate one-character extensions of a text to its
//! words. Both filename/title conversions are stated with these functions.

use vstd::prelude::*;

verus! {

/// Splits `s` at every character for which `sep` holds, the way `str::split`
/// does: `k` separators give `k + 1` pieces, some of which may be empty.
pub open spec fn split_on(s: Seq<char>, sep: spec_fn(char) -> bool) -> Seq<Seq<char>>
    decreases s.len(),
{
    if s.len() == 0 {
        seq![Seq::empty()]
    } else {
        let p = split_on(s.drop_last(), sep);
        if sep(s.last()) {
            p.push(Seq::empty())
        } else {
            p.update(p.len() - 1, p.last().push(s.last()))
        }
    }
}

/// The pieces of `ws` that are not empty, in order.
pub open spec fn drop_empty(ws: Seq<Seq<char>>) -> Seq<Seq<char>>
    decreases ws.len(),
{
    if ws.len() == 0 {
        ws
    } else {
        let r = drop_empty(ws.drop_last());
        if ws.last().len() > 0 {
            r.push(ws.last())
        } else {
            r
        }
    }
}

/// The maximal runs of non-separator characters of `s`.
pub open spec fn words(s: Seq<char>, sep: spec_fn(char) -> bool) -> Seq<Seq<char>> {
    drop_empty(split_on(s, sep))
}

/// Concatenates `ws`, putting `sep` between consecutive elements.
pub open spec fn join(ws: Seq<Seq<char>>, sep: char) -> Seq<char>
    decreases ws.len(),
{
    if ws.len() == 0 {
        Seq::empty()
    } else if ws.len() == 1 {
        ws[0]
    } else {
        join(ws.drop_last(), sep).push(sep) + ws.last()
    }
}

/// `s` has a current (last) piece that is not empty: it ends inside a word.
pub open spec fn ends_in_word(s: Seq<char>, sep: spec_fn(char) -> bool) -> bool {
    split_on(s, sep).last().len() > 0
}

/// Splitting always yields at least one piece.
pub proof fn lemma_split_nonempty(s: Seq<char>, sep: spec_fn(char) -> bool)
    ensures
        split_on(s, sep).len() >= 1,
    decreases s.len(),
{
    if s.len() > 0 {
        lemma_split_nonempty(s.drop_last(), sep);
    }
}

/// The empty text has no words and does not end inside one.
pub proof fn lemma_words_empty(sep: spec_fn(char) -> bool)
    ensures
        words(Seq::empty(), sep) == Seq::<Seq<char>>::empty(),
        !ends_in_word(Seq::empty(), sep),
{
    let p = split_on(Seq::<char>::empty(), sep);
    assert(p == seq![Seq::<char>::empty()]);
    assert(p.drop_last() =~= Seq::<Seq<char>>::empty());
    assert(drop_empty(p) == drop_empty(p.drop_last()));
}

/// Appending a separator starts a new, empty piece; the words are unchanged.
pub proof fn lemma_push_separator(s: Seq<char>, sep: spec_fn(char) -> bool, c: char)
    requires
        sep(c),
    ensures
        split_on(s.push(c), sep) == split_on(s, sep).push(Seq::empty()),
        words(s.push(c), sep) == words(s, sep),
        !ends_in_word(s.push(c), sep),
{
    assert(s.push(c).drop_last() =~= s);
    let p = split_on(s, sep);
    assert(p.push(Seq::<char>::empty()).drop_last() =~= p);
}

/// Appending a word character that starts a new word adds a one-character word.
pub proof fn lemma_push_word_start(s: Seq<char>, sep: spec_fn(char) -> bool, c: char)
    requires
        !sep(c),
        !ends_in_word(s, sep),
    ensures
        words(s.push(c), sep) == words(s, sep).push(seq![c]),
        ends_in_word(s.push(c), sep),
{
    assert(s.push(c).drop_last() =~= s);
    let p = split_on(s, sep);
    lemma_split_nonempty(s, sep);
    let q = p.update(p.len() - 1, p.last().push(c));
    assert(split_on(s.push(c), sep) == q);
    assert(q.drop_last() =~= p.drop_last());
    assert(p.last() =~= Seq::<char>::empty());
    assert(q.last() =~= seq![c]);
    assert(drop_empty(p) == drop_empty(p.drop_last()));
}

/// Appending a word character inside a word extends the last word.
pub proof fn lemma_push_word_continue(s: Seq<char>, sep: spec_fn(char) -> bool, c: char)
    requires
        !sep(c),
        ends_in_word(s, sep),
    ensures
        words(s, sep).len() > 0,
        words(s, sep).last().len() > 0,
        words(s.push(c), sep) == words(s, sep).drop_last().push(words(s, sep).last().push(c)),
        ends_in_word(s.push(c), sep),
{
    assert(s.push(c).drop_last() =~= s);
    let p = split_on(s, sep);
    lemma_split_nonempty(s, sep);
    let q = p.update(p.len() - 1, p.last().push(c));
    assert(split_on(s.push(c), sep) == q);
    assert(q.drop_last() =~= p.drop_last());
    let w = drop_empty(p);
    assert(w == drop_empty(p.drop_last()).push(p.last()));
    assert(w.drop_last() =~= drop_empty(p.drop_last()));
}

/// Joining after appending an element.
pub proof fn lemma_join_push(ws: Seq<Seq<char>>, w: Seq<char>, sep: char)
    ensures
        join(ws.push(w), sep) == (if ws.len() == 0 {
            w
        } else {
            join(ws, sep).push(sep) + w
        }),
{
    assert(ws.push(w).drop_last() =~= ws);
    if ws.len() == 0 {
        assert(ws.push(w)[0] == w);
    }
}

/// Extending the last element by one character extends the joined text by it.
pub proof fn lemma_join_extend_last(ws: Seq<Seq<char>>, c: char, sep: char)
    requires
        ws.len() > 0,
    ensures
        join(ws.drop_last().push(ws.last().push(c)), sep) == join(ws, sep).push(c),
{
    let init = ws.drop_last();
    lemma_join_push(init, ws.last().push(c), sep);
    lemma_join_push(init, ws.last(), sep);
    assert(init.push(ws.last()) =~= ws);
    if init.len() > 0 {
        assert(join(init, sep).push(sep) + ws.last().push(c) =~= (join(init, sep).push(sep)
            + ws.last()).push(c));
    }
}

/// No character of `w` is a separator.
pub open spec fn free_of(w: Seq<char>, sep: spec_fn(char) -> bool) -> bool {
    forall|j: int| 0 <= j < w.len() ==> !sep(#[trigger] w[j])
}

/// No piece of a split holds a separator.
pub proof fn lemma_split_free_of(s: Seq<char>, sep: spec_fn(char) -> bool)
    ensures
        forall|k: int|
            0 <= k < split_on(s, sep).len() ==> free_of(#[trigger] split_on(s, sep)[k], sep),
    decreases s.len(),
{
    if s.len() > 0 {
        lemma_split_free_of(s.drop_last(), sep);
        lemma_split_nonempty(s.drop_last(), sep);
        let p = split_on(s.drop_last(), sep);
        let c = s.last();
        if !sep(c) {
            let q = p.update(p.len() - 1, p.last().push(c));
            assert forall|k: int| 0 <= k < q.len() implies free_of(#[trigger] q[k], sep) by {
                if k == p.len() - 1 {
                    assert forall|j: int| 0 <= j < q[k].len() implies !sep(#[trigger] q[k][j]) by {
                        if j < p.last().len() {
                            assert(q[k][j] == p[k][j]);
                        }
                    }
                }
            }
        } else {
            let q = p.push(Seq::<char>::empty());
            assert forall|k: int| 0 <= k < q.len() implies free_of(#[trigger] q[k], sep) by {
                if k < p.len() {
                    assert(q[k] == p[k]);
                }
            }
        }
    }
}

/// Dropping empty pieces from separator-free pieces leaves non-empty,
/// separator-free pieces.
pub proof fn lemma_drop_empty_elements(ws: Seq<Seq<char>>, sep: spec_fn(char) -> bool)
    requires
        forall|k: int| 0 <= k < ws.len() ==> free_of(#[trigger] ws[k], sep),
    ensures
        forall|k: int|
            0 <= k < drop_empty(ws).len() ==> (#[trigger] drop_empty(ws)[k]).len() > 0
                && free_of(drop_empty(ws)[k], sep),
    decreases ws.len(),
{
    if ws.len() > 0 {
        let init = ws.drop_last();
        assert forall|k: int| 0 <= k < init.len() implies free_of(#[trigger] init[k], sep) by {
            assert(init[k] == ws[k]);
        }
        lemma_drop_empty_elements(init, sep);
        let r = drop_empty(init);
        if ws.last().len() > 0 {
            assert forall|k: int| 0 <= k < r.push(ws.last()).len() implies (#[trigger] r.push(
                ws.last(),
            )[k]).len() > 0 && free_of(r.push(ws.last())[k], sep) by {
                if k < r.len() {
                    assert(r.push(ws.last())[k] == r[k]);
                }
            }
        }
    }
}

/// Every word of `s` is non-empty and holds no separator.
pub proof fn lemma_words_elements(s: Seq<char>, sep: spec_fn(char) -> bool)
    ensures
        forall|k: int|
            0 <= k < words(s, sep).len() ==> (#[trigger] words(s, sep)[k]).len() > 0 && free_of(
                words(s, sep)[k],
                sep,
            ),
{
    lemma_split_free_of(s, sep);
    lemma_drop_empty_elements(split_on(s, sep), sep);
}

/// A join of words whose last word is non-empty ends with that word's last character.
pub proof fn lemma_join_last(ws: Seq<Seq<char>>, sep: char)
    requires
        ws.len() > 0,
        ws.last().len() > 0,
    ensures
        join(ws, sep).len() > 0,
        join(ws, sep).last() == ws.last().last(),
{
    if ws.len() == 1 {
        assert(ws[0] == ws.last());
    } else {
        let a = join(ws.drop_last(), sep).push(sep);
        assert((a + ws.last()).last() == ws.last().last());
    }
}

/// Appending a non-empty, separator-free word where no word is open (at the
/// start, or right after a separator) adds exactly that word.
pub proof fn lemma_words_append_word(s: Seq<char>, sep: spec_fn(char) -> bool, w: Seq<char>)
    requires
        !ends_in_word(s, sep),
        w.len() > 0,
        free_of(w, sep),
    ensures
        words(s + w, sep) == words(s, sep).push(w),
        ends_in_word(s + w, sep),
    decreases w.len(),
{
    let c = w.last();
    let w0 = w.drop_last();
    assert(s + w =~= (s + w0).push(c));
    assert(!sep(w[w.len() - 1]));
    if w0.len() == 0 {
        assert(s + w0 =~= s);
        lemma_push_word_start(s, sep, c);
        assert(seq![c] =~= w);
    } else {
        assert forall|j: int| 0 <= j < w0.len() implies !sep(#[trigger] w0[j]) by {
            assert(w0[j] == w[j]);
        }
        lemma_words_append_word(s, sep, w0);
        lemma_push_word_continue(s + w0, sep, c);
        let ws = words(s, sep).push(w0);
        assert(ws.drop_last() =~= words(s, sep));
        assert(w0.push(c) =~= w);
    }
}

/// Joining non-empty, separator-free words with a separator character and
/// splitting the result again gives the words back.
pub proof fn lemma_words_of_join(ws: Seq<Seq<char>>, sep: spec_fn(char) -> bool, d: char)
    requires
        sep(d),
        forall|k: int| 0 <= k < ws.len() ==> (#[trigger] ws[k]).len() > 0 && free_of(ws[k], sep),
    ensures
        words(join(ws, d), sep) == ws,
    decreases ws.len(),
{
    lemma_words_empty(sep);
    if ws.len() == 1 {
        let e = Seq::<char>::empty();
        assert(e + ws[0] =~= ws[0]);
        lemma_words_append_word(e, sep, ws[0]);
        assert(Seq::<Seq<char>>::empty().push(ws[0]) =~= ws);
    } else if ws.len() > 1 {
        let init = ws.drop_last();
        assert forall|k: int| 0 <= k < init.len() implies (#[trigger] init[k]).len() > 0
            && free_of(init[k], sep) by {
            assert(init[k] == ws[k]);
        }
        lemma_words_of_join(init, sep, d);
        let j = join(init, d);
        lemma_push_separator(j, sep, d);
        assert(ws.last() == ws[ws.len() - 1]);
        lemma_words_append_word(j.push(d), sep, ws.last());
        assert(init.push(ws.last()) =~= ws);
    }
}

/// Every character of `w` satisfies `q`.
pub open spec fn all_chars(w: Seq<char>, q: spec_fn(char) -> bool) -> bool {
    forall|j: int| 0 <= j < w.len() ==> q(#[trigger] w[j])
}

/// The pieces of a split hold only characters of the text: when every
/// character of `s` satisfies `q`, so does every character of every piece.
pub proof fn lemma_split_chars(s: Seq<char>, sep: spec_fn(char) -> bool, q: spec_fn(char) -> bool)
    requires
        all_chars(s, q),
    ensures
        forall|k: int|
            0 <= k < split_on(s, sep).len() ==> all_chars(#[trigger] split_on(s, sep)[k], q),
    decreases s.len(),
{
    if s.len() > 0 {
        let init = s.drop_last();
        assert forall|j: int| 0 <= j < init.len() implies q(#[trigger] init[j]) by {
            assert(init[j] == s[j]);
        }
        lemma_split_chars(init, sep, q);
        lemma_split_nonempty(init, sep);
        let p = split_on(init, sep);
        let c = s.last();
        assert(q(s[s.len() - 1]));
        if !sep(c) {
            let r = p.update(p.len() - 1, p.last().push(c));
            assert forall|k: int| 0 <= k < r.len() implies all_chars(#[trigger] r[k], q) by {
                if k == p.len() - 1 {
                    assert forall|j: int| 0 <= j < r[k].len() implies q(#[trigger] r[k][j]) by {
                        if j < p.last().len() {
                            assert(r[k][j] == p[k][j]);
                        }
                    }
                }
            }
        } else {
            let r = p.push(Seq::<char>::empty());
            assert forall|k: int| 0 <= k < r.len() implies all_chars(#[trigger] r[k], q) by {
                if k < p.len() {
                    assert(r[k] == p[k]);
                }
            }
        }
    }
}

/// Dropping empty pieces keeps only pieces that were there.
pub proof fn lemma_drop_empty_chars(ws: Seq<Seq<char>>, q: spec_fn(char) -> bool)
    requires
        forall|k: int| 0 <= k < ws.len() ==> all_chars(#[trigger] ws[k], q),
    ensures
        forall|k: int| 0 <= k < drop_empty(ws).len() ==> all_chars(#[trigger] drop_empty(ws)[k], q),
    decreases ws.len(),
{
    if ws.len() > 0 {
        let init = ws.drop_last();
        assert forall|k: int| 0 <= k < init.len() implies all_chars(#[trigger] init[k], q) by {
            assert(init[k] == ws[k]);
        }
        lemma_drop_empty_chars(init, q);
        let r = drop_empty(init);
        assert(all_chars(ws[ws.len() - 1], q));
        if ws.last().len() > 0 {
            assert forall|k: int| 0 <= k < r.push(ws.last()).len() implies all_chars(
                #[trigger] r.push(ws.last())[k],
                q,
            ) by {
                if k < r.len() {
                    assert(r.push(ws.last())[k] == r[k]);
                }
            }
        }
    }
}

/// The words of a text hold only characters of the text.
pub proof fn lemma_words_chars(s: Seq<char>, sep: spec_fn(char) -> bool, q: spec_fn(char) -> bool)
    requires
        all_chars(s, q),
    ensures
        forall|k: int| 0 <= k < words(s, sep).len() ==> all_chars(#[trigger] words(s, sep)[k], q),
{
    lemma_split_chars(s, sep, q);
    lemma_drop_empty_chars(split_on(s, sep), q);
}

} // verus!
