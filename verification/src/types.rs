//! Rule identities and the conversions between rule filenames and titles.

use vstd::prelude::*;
use crate::text::{
    uppercase, alphanumeric, ascii_lower, chars_of, char_to_uppercase,
    char_is_alphanumeric, to_ascii_lowercase, string_from_chars, is_ascii_char,
    is_ascii_lower, is_ascii_digit, ascii_upper, unicode_alphanumeric, is_ascii_alnum,
    lowered,
};
use crate::words::{
    words, join, ends_in_word, lemma_push_separator, lemma_push_word_continue,
    lemma_push_word_start, lemma_join_extend_last, lemma_join_push, lemma_words_empty,
    lemma_words_elements, lemma_join_last, free_of, lemma_words_of_join, all_chars,
    lemma_words_chars,
};

verus! {

/// The `.md` extension, as characters.
pub open spec fn md_suffix() -> Seq<char> {
    seq!['.', 'm', 'd']
}

/// `s` ends with `.md`.
pub open spec fn has_md_suffix(s: Seq<char>) -> bool {
    s.len() >= 3 && s.subrange(s.len() - 3, s.len() as int) == md_suffix()
}

/// `s` without a trailing `.md`, or `s` itself where it has none.
pub open spec fn md_stem(s: Seq<char>) -> Seq<char> {
    if has_md_suffix(s) {
        s.subrange(0, s.len() - 3)
    } else {
        s
    }
}

/// The characters that separate the words of a filename: `-` and `_`.
pub open spec fn title_separator() -> spec_fn(char) -> bool {
    |c: char| c == '-' || c == '_'
}

/// A word with its first character replaced by its uppercase mapping.
pub open spec fn capitalize(w: Seq<char>) -> Seq<char> {
    if w.len() == 0 {
        w
    } else {
        uppercase(w[0]) + w.drop_first()
    }
}

/// Every word of `ws`, capitalized.
pub open spec fn capitalized(ws: Seq<Seq<char>>) -> Seq<Seq<char>> {
    ws.map_values(|w: Seq<char>| capitalize(w))
}

/// The title of a rule file: the words of the filename without `.md`
/// (split at `-` and `_`, empty pieces dropped), each capitalized, joined
/// with single spaces.
pub open spec fn title_of(filename: Seq<char>) -> Seq<char> {
    join(capitalized(words(md_stem(filename), title_separator())), ' ')
}

proof fn lemma_capitalized_push(ws: Seq<Seq<char>>, w: Seq<char>)
    ensures
        capitalized(ws.push(w)) == capitalized(ws).push(capitalize(w)),
{
    assert(capitalized(ws.push(w)) =~= capitalized(ws).push(capitalize(w)));
}

proof fn lemma_capitalized_extend_last(ws: Seq<Seq<char>>, c: char)
    requires
        ws.len() > 0,
        ws.last().len() > 0,
    ensures
        capitalized(ws.drop_last().push(ws.last().push(c))) == capitalized(ws).drop_last().push(
            capitalized(ws).last().push(c),
        ),
{
    let w = ws.last();
    assert(w.push(c).drop_first() =~= w.drop_first().push(c));
    assert(capitalize(w.push(c)) =~= capitalize(w).push(c));
    assert(capitalized(ws.drop_last().push(ws.last().push(c))) =~= capitalized(ws).drop_last().push(
        capitalized(ws).last().push(c),
    ));
}

/// Whether the characters `s` end with `.md`.
pub fn ends_with_md(s: &Vec<char>) -> (r: bool)
    ensures
        r == has_md_suffix(s@),
{
    let n = s.len();
    if n < 3 {
        return false;
    }
    let r = s[n - 3] == '.' && s[n - 2] == 'm' && s[n - 1] == 'd';
    proof {
        let tail = s@.subrange(n - 3, n as int);
        if r {
            assert(tail =~= md_suffix());
        } else {
            assert(tail[0] == s@[n - 3] && tail[1] == s@[n - 2] && tail[2] == s@[n - 1]);
            assert(md_suffix()[0] == '.' && md_suffix()[1] == 'm' && md_suffix()[2] == 'd');
        }
    }
    r
}

/// Humanizes a rule filename into a title: drops a trailing `.md`, splits
/// the rest at `-` and `_`, skips empty pieces, uppercases the first
/// character of each word and joins the words with single spaces.
pub fn title_from_filename(filename: &str) -> (title: String)
    ensures
        title@ == title_of(filename@),
{
    let chars = chars_of(filename);
    let n = chars.len();
    let stem_len = if ends_with_md(&chars) {
        n - 3
    } else {
        n
    };
    let ghost stem = md_stem(chars@);
    assert(stem =~= chars@.subrange(0, stem_len as int));
    let ghost sep = title_separator();
    let mut out: Vec<char> = Vec::new();
    let mut in_word = false;
    let mut any_word = false;
    let mut i: usize = 0;
    assert(stem.subrange(0, 0) =~= Seq::<char>::empty());
    proof {
        lemma_words_empty(sep);
        assert(capitalized(Seq::<Seq<char>>::empty()) =~= Seq::<Seq<char>>::empty());
    }
    while i < stem_len
        invariant
            i <= stem_len <= n == chars@.len(),
            stem == chars@.subrange(0, stem_len as int),
            sep == title_separator(),
            out@ == join(capitalized(words(stem.subrange(0, i as int), sep)), ' '),
            in_word == ends_in_word(stem.subrange(0, i as int), sep),
            any_word == (words(stem.subrange(0, i as int), sep).len() > 0),
        decreases stem_len - i,
    {
        let c = chars[i];
        let ghost t = stem.subrange(0, i as int);
        assert(stem.subrange(0, i + 1) =~= t.push(c));
        if c == '-' || c == '_' {
            proof {
                lemma_push_separator(t, sep, c);
            }
            in_word = false;
        } else if in_word {
            proof {
                lemma_push_word_continue(t, sep, c);
                let ws = words(t, sep);
                lemma_capitalized_extend_last(ws, c);
                lemma_join_extend_last(capitalized(ws), c, ' ');
            }
            out.push(c);
        } else {
            proof {
                lemma_push_word_start(t, sep, c);
                let ws = words(t, sep);
                lemma_capitalized_push(ws, seq![c]);
                assert(seq![c].drop_first() =~= Seq::<char>::empty());
                assert(capitalize(seq![c]) =~= uppercase(c));
                lemma_join_push(capitalized(ws), uppercase(c), ' ');
            }
            if any_word {
                out.push(' ');
            }
            let mut upper = char_to_uppercase(c);
            out.append(&mut upper);
            in_word = true;
            any_word = true;
        }
        i += 1;
    }
    assert(stem.subrange(0, stem_len as int) =~= stem);
    string_from_chars(&out)
}

/// How a title character appears in a filename: letters and digits are
/// kept, with ASCII uppercase lowered; anything else becomes `-`.
pub open spec fn slug_char(c: char) -> char {
    if alphanumeric(c) {
        ascii_lower(c)
    } else {
        '-'
    }
}

/// A title with every character replaced by its [`slug_char`].
pub open spec fn slug(title: Seq<char>) -> Seq<char> {
    title.map_values(|c: char| slug_char(c))
}

/// The separator of filename words: `-`.
pub open spec fn dash() -> spec_fn(char) -> bool {
    |c: char| c == '-'
}

/// The filename of a title without its extension: the runs of letters and
/// digits of the title, ASCII-lowercased, joined with single dashes.
pub open spec fn filename_stem_of(title: Seq<char>) -> Seq<char> {
    join(words(slug(title), dash()), '-')
}

/// The filename of a title: [`filename_stem_of`] followed by `.md`.
pub open spec fn filename_of(title: Seq<char>) -> Seq<char> {
    filename_stem_of(title) + md_suffix()
}

/// Turns a title into a filename slug: letters and digits are kept (ASCII
/// ones lowercased), every other character acts as a separator, runs of
/// separators collapse to a single `-`, no `-` is left at either end, and
/// `.md` is appended.
pub fn title_to_filename(title: &str) -> (filename: String)
    ensures
        filename@ == filename_of(title@),
{
    let chars = chars_of(title);
    let n = chars.len();
    let mut slugged: Vec<char> = Vec::new();
    let mut i: usize = 0;
    while i < n
        invariant
            i <= n == chars@.len(),
            slugged@ == slug(chars@.subrange(0, i as int)),
        decreases n - i,
    {
        let c = chars[i];
        let mapped = if char_is_alphanumeric(c) {
            to_ascii_lowercase(c)
        } else {
            '-'
        };
        slugged.push(mapped);
        assert(slug(chars@.subrange(0, i + 1)) =~= slug(chars@.subrange(0, i as int)).push(
            slug_char(c),
        ));
        i += 1;
    }
    assert(chars@.subrange(0, n as int) =~= chars@);
    let ghost sl = slugged@;
    let ghost sep = dash();
    let mut result: Vec<char> = Vec::new();
    let mut prev_dash = false;
    let mut j: usize = 0;
    proof {
        lemma_words_empty(sep);
        assert(sl.subrange(0, 0) =~= Seq::<char>::empty());
        assert(result@ =~= join(words(sl.subrange(0, 0), sep), '-'));
    }
    while j < n
        invariant
            j <= n == sl.len(),
            sl == slugged@,
            sep == dash(),
            ends_in_word(sl.subrange(0, j as int), sep) == (j > 0 && !prev_dash),
            (words(sl.subrange(0, j as int), sep).len() > 0) == (result@.len() > 0),
            result@ == join(words(sl.subrange(0, j as int), sep), '-') + (if prev_dash
                && result@.len() > 0 {
                seq!['-']
            } else {
                Seq::<char>::empty()
            }),
        decreases n - j,
    {
        let c = slugged[j];
        let ghost t = sl.subrange(0, j as int);
        assert(sl.subrange(0, j + 1) =~= t.push(c));
        if c == '-' {
            proof {
                lemma_push_separator(t, sep, c);
            }
            let ghost jw = join(words(t, sep), '-');
            if !prev_dash && result.len() > 0 {
                assert(result@ =~= jw);
                result.push('-');
                assert(result@ =~= jw + seq!['-']);
            } else if !prev_dash {
                assert(result@ =~= jw + Seq::<char>::empty());
            }
            prev_dash = true;
        } else {
            let ghost ws = words(t, sep);
            if j > 0 && !prev_dash {
                proof {
                    lemma_push_word_continue(t, sep, c);
                    lemma_join_extend_last(ws, c, '-');
                    assert(result@ =~= join(ws, '-'));
                    assert(words(t.push(c), sep) == ws.drop_last().push(ws.last().push(c)));
                    assert(join(words(t.push(c), sep), '-') == result@.push(c));
                }
            } else {
                proof {
                    lemma_push_word_start(t, sep, c);
                    lemma_join_push(ws, seq![c], '-');
                    let jw = join(ws, '-');
                    if j == 0 {
                        lemma_words_empty(sep);
                        assert(t =~= Seq::<char>::empty());
                    }
                    if ws.len() > 0 {
                        assert(result@ == jw + seq!['-']);
                        assert((jw + seq!['-']).push(c) =~= jw.push('-') + seq![c]);
                    } else {
                        assert(jw =~= Seq::<char>::empty());
                        assert(result@ =~= Seq::<char>::empty());
                        assert(result@.push(c) =~= seq![c]);
                    }
                    assert(join(words(t.push(c), sep), '-') == result@.push(c));
                }
            }
            result.push(c);
            prev_dash = false;
        }
        j += 1;
    }
    assert(sl.subrange(0, n as int) =~= sl);
    let ghost stem = filename_stem_of(title@);
    assert(stem == join(words(sl, sep), '-'));
    proof {
        lemma_words_elements(sl, sep);
        let ws = words(sl, sep);
        if ws.len() > 0 {
            lemma_join_last(ws, '-');
            assert(free_of(ws.last(), sep));
            assert(!sep(ws.last()[ws.last().len() - 1]));
        }
    }
    while result.len() > 0 && result[result.len() - 1] == '-'
        invariant
            stem.len() == 0 || stem.last() != '-',
            result@ == stem || result@ == stem.push('-'),
        decreases result.len(),
    {
        result.pop();
    }
    assert(result@ =~= stem) by {
        if result@ != stem {
            assert(result@ == stem.push('-'));
            assert(result@.last() == '-');
        }
    }
    result.push('.');
    result.push('m');
    result.push('d');
    assert(result@ =~= filename_of(title@));
    string_from_chars(&result)
}

/// A word of a slug-form filename: non-empty, made of lowercase ASCII
/// letters and ASCII digits.
pub open spec fn is_slug_word(w: Seq<char>) -> bool {
    w.len() > 0 && forall|j: int| 0 <= j < w.len() ==> is_ascii_lower(#[trigger] w[j]) || is_ascii_digit(w[j])
}

/// The slug-form filename made of `ws`: the words joined by `-`, then `.md`.
pub open spec fn slug_filename(ws: Seq<Seq<char>>) -> Seq<char> {
    join(ws, '-') + md_suffix()
}

proof fn lemma_slug_of_capitalized_word(w: Seq<char>)
    requires
        is_slug_word(w),
    ensures
        slug(capitalize(w)) == w,
{
    let c = w[0];
    assert(is_ascii_lower(c) || is_ascii_digit(c));
    let u = ascii_upper(c);
    assert(is_ascii_char(c));
    assert(uppercase(c) == seq![u]);
    assert(is_ascii_char(u));
    assert(alphanumeric(u));
    assert(ascii_lower(u) == c);
    let cw = capitalize(w);
    assert(cw =~= seq![u] + w.drop_first());
    assert forall|j: int| 0 <= j < w.len() implies #[trigger] slug(cw)[j] == w[j] by {
        if j > 0 {
            let d = w[j];
            assert(cw[j] == d);
            assert(is_ascii_lower(d) || is_ascii_digit(d));
            assert(is_ascii_char(d));
            assert(alphanumeric(d));
            assert(ascii_lower(d) == d);
        }
    }
    assert(slug(cw) =~= w);
}

proof fn lemma_slug_concat(a: Seq<char>, b: Seq<char>)
    ensures
        slug(a + b) == slug(a) + slug(b),
{
    assert(slug(a + b) =~= slug(a) + slug(b));
}

/// The slug of titles joined by spaces is the slugs joined by dashes.
proof fn lemma_slug_join(cs: Seq<Seq<char>>)
    ensures
        slug(join(cs, ' ')) == join(cs.map_values(|w: Seq<char>| slug(w)), '-'),
    decreases cs.len(),
{
    let m = cs.map_values(|w: Seq<char>| slug(w));
    if cs.len() == 0 {
        assert(slug(Seq::<char>::empty()) =~= Seq::<char>::empty());
    } else if cs.len() == 1 {
        assert(m[0] == slug(cs[0]));
    } else {
        let init = cs.drop_last();
        lemma_slug_join(init);
        let j = join(init, ' ');
        lemma_slug_concat(j.push(' '), cs.last());
        assert(slug(j.push(' ')) =~= slug(j).push('-'));
        assert(init.map_values(|w: Seq<char>| slug(w)) =~= m.drop_last());
        assert(m.last() == slug(cs.last()));
    }
}

/// Round trip of slug-form filenames: for any words of lowercase ASCII letters
/// and digits, the filename `w1-w2-...-wn.md` turned into a title and back
/// gives the same filename. This is what lets a rule created from such a file
/// be recognised again by its title.
pub proof fn lemma_slug_filename_round_trip(ws: Seq<Seq<char>>)
    requires
        forall|k: int| 0 <= k < ws.len() ==> is_slug_word(#[trigger] ws[k]),
    ensures
        filename_of(title_of(slug_filename(ws))) == slug_filename(ws),
{
    let stem = join(ws, '-');
    let f = slug_filename(ws);
    assert(f.subrange(f.len() - 3, f.len() as int) =~= md_suffix());
    assert(md_stem(f) =~= stem);
    assert forall|k: int| 0 <= k < ws.len() implies (#[trigger] ws[k]).len() > 0 && free_of(
        ws[k],
        title_separator(),
    ) && free_of(ws[k], dash()) by {
        let w = ws[k];
        assert(is_slug_word(w));
        assert forall|j: int| 0 <= j < w.len() implies !(title_separator())(#[trigger] w[j]) by {
            assert(is_ascii_lower(w[j]) || is_ascii_digit(w[j]));
        }
        assert forall|j: int| 0 <= j < w.len() implies !(dash())(#[trigger] w[j]) by {
            assert(is_ascii_lower(w[j]) || is_ascii_digit(w[j]));
        }
    }
    lemma_words_of_join(ws, title_separator(), '-');
    let caps = capitalized(ws);
    let title = join(caps, ' ');
    assert(title_of(f) == title);
    lemma_slug_join(caps);
    let back = caps.map_values(|w: Seq<char>| slug(w));
    assert forall|k: int| 0 <= k < ws.len() implies #[trigger] back[k] == ws[k] by {
        lemma_slug_of_capitalized_word(ws[k]);
    }
    assert(back =~= ws);
    lemma_words_of_join(ws, dash(), '-');
    assert(filename_stem_of(title) == stem);
}

/// The character set of slug-form filenames: lowercase ASCII letters,
/// ASCII digits, and `-`.
pub open spec fn slug_alphabet() -> spec_fn(char) -> bool {
    |c: char| is_ascii_lower(c) || is_ascii_digit(c) || c == '-'
}

/// Titles made of ASCII characters give slug-form filenames, and those are
/// stable: converting such a title to a filename, the filename to a title,
/// and that title back to a filename gives the first filename again.
pub proof fn lemma_ascii_title_filename_stable(t: Seq<char>)
    requires
        forall|j: int| 0 <= j < t.len() ==> is_ascii_char(#[trigger] t[j]),
    ensures
        forall|k: int|
            0 <= k < words(slug(t), dash()).len() ==> is_slug_word(#[trigger] words(slug(t), dash())[k]),
        filename_of(t) == slug_filename(words(slug(t), dash())),
        filename_of(title_of(filename_of(t))) == filename_of(t),
{
    let sl = slug(t);
    let ws = words(sl, dash());
    let q = slug_alphabet();
    assert forall|j: int| 0 <= j < sl.len() implies q(#[trigger] sl[j]) by {
        let c = t[j];
        assert(sl[j] == slug_char(c));
        assert(is_ascii_char(c));
    }
    lemma_words_chars(sl, dash(), q);
    lemma_words_elements(sl, dash());
    assert forall|k: int| 0 <= k < ws.len() implies is_slug_word(#[trigger] ws[k]) by {
        let w = ws[k];
        assert(all_chars(w, q));
        assert(free_of(w, dash()));
        assert forall|j: int| 0 <= j < w.len() implies is_ascii_lower(#[trigger] w[j]) || is_ascii_digit(w[j]) by {
            assert(q(w[j]));
            assert(!(dash())(w[j]));
        }
    }
    lemma_slug_filename_round_trip(ws);
}

/// `c` is a letter or digit in the sense of `char::is_alphanumeric`: an
/// ASCII letter or digit, or a non-ASCII character with the Unicode
/// alphabetic or numeric property.
pub open spec fn letter_or_digit(c: char) -> bool {
    (is_ascii_char(c) && is_ascii_alnum(c)) || (!is_ascii_char(c) && unicode_alphanumeric(c))
}

proof fn lemma_slug_of_letters(w: Seq<char>)
    requires
        forall|j: int| 0 <= j < w.len() ==> letter_or_digit(#[trigger] w[j]),
    ensures
        slug(w) == lowered(w),
        free_of(lowered(w), dash()),
{
    assert forall|j: int| 0 <= j < w.len() implies #[trigger] slug(w)[j] == lowered(w)[j] by {
        assert(letter_or_digit(w[j]));
    }
    assert(slug(w) =~= lowered(w));
    assert forall|j: int| 0 <= j < lowered(w).len() implies !(dash())(#[trigger] lowered(w)[j]) by {
        assert(letter_or_digit(w[j]));
        assert(lowered(w)[j] == ascii_lower(w[j]));
    }
}

/// Every letter or digit of a title is kept in its filename, whatever its
/// script: a title made of words of letters and digits separated by single
/// spaces gives those words, with ASCII uppercase lowered and every other
/// character unchanged, joined by `-`, followed by `.md`.
pub proof fn lemma_letters_and_digits_kept(ws: Seq<Seq<char>>)
    requires
        forall|k: int| 0 <= k < ws.len() ==> (#[trigger] ws[k]).len() > 0,
        forall|k: int, j: int| 0 <= k < ws.len() && 0 <= j < ws[k].len() ==> letter_or_digit(#[trigger] ws[k][j]),
    ensures
        filename_of(join(ws, ' ')) == join(ws.map_values(|w: Seq<char>| lowered(w)), '-') + md_suffix(),
{
    let lw = ws.map_values(|w: Seq<char>| lowered(w));
    lemma_slug_join(ws);
    let sw = ws.map_values(|w: Seq<char>| slug(w));
    assert forall|k: int| 0 <= k < ws.len() implies #[trigger] sw[k] == lw[k] && lw[k].len() > 0 && free_of(lw[k], dash()) by {
        let w = ws[k];
        assert forall|j: int| 0 <= j < w.len() implies letter_or_digit(#[trigger] w[j]) by {
            assert(letter_or_digit(ws[k][j]));
        }
        lemma_slug_of_letters(w);
    }
    assert(sw =~= lw);
    lemma_words_of_join(lw, dash(), '-');
}

/// A single character of a title survives into the filename exactly when it
/// is a letter or digit (lowered if ASCII); anything else leaves only `.md`.
pub proof fn lemma_single_character_filename(c: char)
    ensures
        filename_of(seq![c]) == (if letter_or_digit(c) {
            seq![ascii_lower(c)]
        } else {
            Seq::<char>::empty()
        }) + md_suffix(),
{
    let e = Seq::<char>::empty();
    lemma_words_empty(dash());
    assert(e.push(slug_char(c)) =~= slug(seq![c]));
    if letter_or_digit(c) {
        assert(ascii_lower(c) != '-');
        lemma_push_word_start(e, dash(), slug_char(c));
        assert(words(slug(seq![c]), dash()) =~= seq![seq![ascii_lower(c)]]);
        assert(join(seq![seq![ascii_lower(c)]], '-') == seq![ascii_lower(c)]);
    } else {
        lemma_push_separator(e, dash(), '-');
    }
}

/// Every word of a filename has its first character replaced by its full
/// uppercase mapping, whatever its script, and keeps the rest unchanged:
/// for words without `-` or `_`, the title of `w1-...-wn.md` is the words,
/// each as `uppercase(w[0])` followed by `w[1..]`, joined by spaces.
pub proof fn lemma_every_word_capitalized(ws: Seq<Seq<char>>)
    requires
        forall|k: int| 0 <= k < ws.len() ==> (#[trigger] ws[k]).len() > 0,
        forall|k: int, j: int|
            0 <= k < ws.len() && 0 <= j < ws[k].len() ==> #[trigger] ws[k][j] != '-' && ws[k][j] != '_',
    ensures
        title_of(join(ws, '-') + md_suffix()) == join(
            ws.map_values(|w: Seq<char>| uppercase(w[0]) + w.drop_first()),
            ' ',
        ),
{
    let f = join(ws, '-') + md_suffix();
    assert(f.subrange(f.len() - 3, f.len() as int) =~= md_suffix());
    assert(md_stem(f) =~= join(ws, '-'));
    assert forall|k: int| 0 <= k < ws.len() implies (#[trigger] ws[k]).len() > 0 && free_of(
        ws[k],
        title_separator(),
    ) by {
        assert forall|j: int| 0 <= j < ws[k].len() implies !(title_separator())(#[trigger] ws[k][j]) by {
            assert(ws[k][j] != '-' && ws[k][j] != '_');
        }
    }
    lemma_words_of_join(ws, title_separator(), '-');
    assert(capitalized(ws) =~= ws.map_values(|w: Seq<char>| uppercase(w[0]) + w.drop_first()));
}

} // verus!
