use vstd::prelude::*;
use base64::Engine;
use vstd::utf8::{decode_utf8, valid_utf8};
use crate::response::{ApiError, ErrorKind};
use crate::text::{
    chars_of, contains_char, contains_run, find_char, first_index, has_char, has_run,
    string_of_chars, trim, trimmed,
};

verus! {

/// Lyrics lines longer excerpts are cut to.
pub const EXCERPT_LINES: usize = 5;

/// Full-width colon that marks credit lines ("作词：...").
pub const CREDIT_MARK: char = '：';

/// Opening bracket of the copyright disclaimer line.
pub const DISCLAIMER_MARK: char = '【';

/// Pieces of `s` between newlines: one more piece than there are newlines.
pub open spec fn split_nl(s: Seq<char>) -> Seq<Seq<char>>
    decreases s.len(),
{
    if s.len() == 0 {
        seq![Seq::<char>::empty()]
    } else {
        let p = split_nl(s.drop_last());
        if s.last() == '\n' {
            p.push(Seq::<char>::empty())
        } else {
            p.update(p.len() - 1, p.last().push(s.last()))
        }
    }
}

/// `l` without one trailing carriage return.
pub open spec fn strip_cr(l: Seq<char>) -> Seq<char> {
    if l.len() > 0 && l.last() == '\r' {
        l.drop_last()
    } else {
        l
    }
}

/// The lines of a text: split at `\n`, a `\r` before the `\n` removed, and
/// no empty line after a final line ending.
pub open spec fn text_lines(s: Seq<char>) -> Seq<Seq<char>> {
    let p = split_nl(s);
    let ended = p.drop_last().map_values(|l: Seq<char>| strip_cr(l));
    if p.last().len() == 0 {
        ended
    } else {
        ended.push(p.last())
    }
}

/// A line without its leading bracket tag: when the first `[` comes before
/// the first `]`, everything up to and including that `]` is removed.
pub open spec fn strip_tag(l: Seq<char>) -> Seq<char> {
    match (first_index(l, '['), first_index(l, ']')) {
        (Some(a), Some(b)) => if a < b {
            l.subrange(b + 1, l.len() as int)
        } else {
            l
        },
        _ => l,
    }
}

/// A line (tag already stripped) belongs in an excerpt: it is not blank
/// after trimming, it is no credit or disclaimer line, and it does not hold
/// the title anywhere.
pub open spec fn keeps_line(l: Seq<char>, title: Seq<char>) -> bool {
    &&& trim(l).len() > 0
    &&& !has_char(l, CREDIT_MARK)
    &&& !has_char(l, DISCLAIMER_MARK)
    &&& !has_run(l, title)
}

/// The tag-stripped lines of `ls` that an excerpt may hold, in order.
pub open spec fn kept_lines(ls: Seq<Seq<char>>, title: Seq<char>) -> Seq<Seq<char>>
    decreases ls.len(),
{
    if ls.len() == 0 {
        seq![]
    } else {
        let p = kept_lines(ls.drop_last(), title);
        let l = strip_tag(ls.last());
        if keeps_line(l, title) {
            p.push(l)
        } else {
            p
        }
    }
}

/// Every line of a lyrics text that survives tag stripping and filtering.
pub open spec fn surviving_lines(text: Seq<char>, title: Seq<char>) -> Seq<Seq<char>> {
    kept_lines(text_lines(text), title)
}

/// The first `EXCERPT_LINES` surviving lines (all of them when there are fewer).
pub open spec fn excerpt_lines(text: Seq<char>, title: Seq<char>) -> Seq<Seq<char>> {
    let s = surviving_lines(text, title);
    if s.len() <= EXCERPT_LINES {
        s
    } else {
        s.take(EXCERPT_LINES as int)
    }
}

/// Lines joined with `\n` between them.
pub open spec fn join_lines(ls: Seq<Seq<char>>) -> Seq<char>
    decreases ls.len(),
{
    if ls.len() == 0 {
        Seq::<char>::empty()
    } else if ls.len() == 1 {
        ls[0]
    } else {
        join_lines(ls.drop_last()) + seq!['\n'] + ls.last()
    }
}

/// The excerpt of a lyrics text for a song title.
pub open spec fn lyrics_excerpt(title: Seq<char>, text: Seq<char>) -> Seq<char> {
    join_lines(excerpt_lines(text, title))
}

/// Views of a sequence of character vectors.
pub open spec fn views(v: Seq<Vec<char>>) -> Seq<Seq<char>> {
    v.map_values(|l: Vec<char>| l@)
}

proof fn lemma_split_nl_nonempty(s: Seq<char>)
    ensures
        split_nl(s).len() >= 1,
    decreases s.len(),
{
    if s.len() > 0 {
        lemma_split_nl_nonempty(s.drop_last());
    }
}

fn strip_cr_exec(l: Vec<char>) -> (r: Vec<char>)
    ensures
        r@ == strip_cr(l@),
{
    let mut l = l;
    if l.len() > 0 && l[l.len() - 1] == '\r' {
        l.pop();
    }
    l
}

/// The lines of a text, as `str::lines` gives them.
pub fn split_lines(s: &Vec<char>) -> (r: Vec<Vec<char>>)
    ensures
        views(r@) == text_lines(s@),
{
    let mut done: Vec<Vec<char>> = Vec::new();
    let mut cur: Vec<char> = Vec::new();
    let mut i: usize = 0;
    assert(s@.take(0) =~= Seq::<char>::empty());
    while i < s.len()
        invariant
            i <= s@.len(),
            split_nl(s@.take(i as int)).len() == done@.len() + 1,
            forall|j: int|
                0 <= j < done@.len() ==> (#[trigger] done@[j])@ == strip_cr(
                    split_nl(s@.take(i as int))[j],
                ),
            cur@ == split_nl(s@.take(i as int)).last(),
        decreases s@.len() - i,
    {
        let c = s[i];
        proof {
            assert(s@.take(i + 1).drop_last() =~= s@.take(i as int));
            lemma_split_nl_nonempty(s@.take(i as int));
        }
        if c == '\n' {
            let line = strip_cr_exec(cur);
            done.push(line);
            cur = Vec::new();
        } else {
            cur.push(c);
        }
        i = i + 1;
    }
    proof {
        assert(s@.take(s@.len() as int) =~= s@);
    }
    let ghost p = split_nl(s@);
    let ghost ended = p.drop_last().map_values(|l: Seq<char>| strip_cr(l));
    assert(views(done@) =~= ended);
    if cur.len() == 0 {
        done
    } else {
        done.push(cur);
        assert(views(done@) =~= ended.push(p.last()));
        done
    }
}

/// `l` without its leading bracket tag.
fn strip_tag_exec(l: &Vec<char>) -> (r: Vec<char>)
    ensures
        r@ == strip_tag(l@),
{
    let a = find_char(l, '[');
    let b = find_char(l, ']');
    if a < l.len() && b < l.len() && a < b {
        let mut out: Vec<char> = Vec::new();
        let mut k: usize = b + 1;
        while k < l.len()
            invariant
                b < k <= l@.len(),
                out@ == l@.subrange(b + 1, k as int),
            decreases l@.len() - k,
        {
            out.push(l[k]);
            assert(l@.subrange(b + 1, k + 1) =~= l@.subrange(b + 1, k as int).push(l@[k as int]));
            k = k + 1;
        }
        out
    } else {
        l.clone()
    }
}

fn keeps_line_exec(l: &Vec<char>, title: &Vec<char>) -> (r: bool)
    ensures
        r == keeps_line(l@, title@),
{
    let t = trimmed(l);
    t.len() > 0 && !contains_char(l, CREDIT_MARK) && !contains_char(l, DISCLAIMER_MARK)
        && !contains_run(l, title)
}

/// Appends `l` to `out`, with a newline first unless `out` holds no line yet.
fn append_line(out: &mut Vec<char>, l: &Vec<char>, first: bool)
    ensures
        final(out)@ == if first {
            old(out)@ + l@
        } else {
            old(out)@ + seq!['\n'] + l@
        },
{
    if !first {
        out.push('\n');
    }
    let ghost start = out@;
    let mut k: usize = 0;
    while k < l.len()
        invariant
            k <= l@.len(),
            out@ == start + l@.take(k as int),
        decreases l@.len() - k,
    {
        out.push(l[k]);
        assert(start + l@.take(k + 1) =~= (start + l@.take(k as int)).push(l@[k as int]));
        k = k + 1;
    }
    assert(l@.take(l@.len() as int) =~= l@);
}

/// Keeps the first five lyrics lines that survive tag stripping and filtering,
/// joined with newlines.
pub fn format_lyrics(title: &str, lyrics: &str) -> (r: String)
    ensures
        r@ == lyrics_excerpt(title@, lyrics@),
{
    let title = chars_of(title);
    let text = chars_of(lyrics);
    let lines = split_lines(&text);
    let mut kept: Vec<Vec<char>> = Vec::new();
    let mut j: usize = 0;
    assert(views(lines@).take(0) =~= Seq::<Seq<char>>::empty());
    while j < lines.len()
        invariant
            j <= lines@.len(),
            views(kept@) == kept_lines(views(lines@).take(j as int), title@),
        decreases lines@.len() - j,
    {
        let l = strip_tag_exec(&lines[j]);
        proof {
            assert(views(lines@).take(j + 1).drop_last() =~= views(lines@).take(j as int));
        }
        if keeps_line_exec(&l, &title) {
            kept.push(l);
            assert(views(kept@) =~= kept_lines(views(lines@).take(j as int), title@).push(
                strip_tag(lines@[j as int]@),
            ));
        }
        j = j + 1;
    }
    assert(views(lines@).take(lines@.len() as int) =~= views(lines@));
    let ghost all = views(kept@);
    let n = if kept.len() <= EXCERPT_LINES {
        kept.len()
    } else {
        EXCERPT_LINES
    };
    assert(excerpt_lines(lyrics@, title@) =~= all.take(n as int));
    let mut out: Vec<char> = Vec::new();
    let mut k: usize = 0;
    while k < n
        invariant
            n <= kept@.len(),
            all == views(kept@),
            k <= n,
            out@ == join_lines(all.take(k as int)),
        decreases n - k,
    {
        append_line(&mut out, &kept[k], k == 0);
        assert(all.take(k + 1).drop_last() =~= all.take(k as int));
        k = k + 1;
    }
    string_of_chars(&out)
}

/// `l` holds no line break.
pub open spec fn one_line(l: Seq<char>) -> bool {
    !has_char(l, '\n')
}

/// `l` does not end with a carriage return.
pub open spec fn no_trailing_cr(l: Seq<char>) -> bool {
    l.len() == 0 || l.last() != '\r'
}

proof fn lemma_sub_one_line(l: Seq<char>, a: int, b: int)
    requires
        one_line(l),
        0 <= a <= b <= l.len(),
    ensures
        one_line(l.subrange(a, b)),
{
    if has_char(l.subrange(a, b), '\n') {
        let i = choose|i: int| 0 <= i < b - a && l.subrange(a, b)[i] == '\n';
        assert(l[a + i] == '\n');
    }
}

proof fn lemma_split_nl_one_line(s: Seq<char>)
    ensures
        split_nl(s).len() >= 1,
        forall|i: int| 0 <= i < split_nl(s).len() ==> one_line(#[trigger] split_nl(s)[i]),
    decreases s.len(),
{
    if s.len() > 0 {
        let q = s.drop_last();
        lemma_split_nl_one_line(q);
        let p = split_nl(q);
        if s.last() != '\n' {
            let l = p.last().push(s.last());
            assert(one_line(l)) by {
                assert(one_line(p[p.len() - 1]));
                if has_char(l, '\n') {
                    let i = choose|i: int| 0 <= i < l.len() && l[i] == '\n';
                    assert(p.last()[i] == '\n');
                }
            }
        }
    }
}

proof fn lemma_text_lines_one_line(s: Seq<char>)
    ensures
        forall|i: int| 0 <= i < text_lines(s).len() ==> one_line(#[trigger] text_lines(s)[i]),
{
    lemma_split_nl_one_line(s);
    let p = split_nl(s);
    assert forall|i: int| 0 <= i < text_lines(s).len() implies one_line(#[trigger] text_lines(s)[i]) by {
        if i < p.len() - 1 {
            assert(one_line(p[i]));
            lemma_sub_one_line(p[i], 0, strip_cr(p[i]).len() as int);
            assert(strip_cr(p[i]) =~= p[i].subrange(0, strip_cr(p[i]).len() as int));
        } else {
            assert(one_line(p[p.len() - 1]));
        }
    }
}

proof fn lemma_kept_lines_props(ls: Seq<Seq<char>>, title: Seq<char>)
    requires
        forall|i: int| 0 <= i < ls.len() ==> one_line(#[trigger] ls[i]),
    ensures
        forall|i: int|
            0 <= i < kept_lines(ls, title).len() ==> {
                let k = #[trigger] kept_lines(ls, title)[i];
                one_line(k) && keeps_line(k, title) && k.len() > 0
            },
    decreases ls.len(),
{
    if ls.len() > 0 {
        let q = ls.drop_last();
        assert forall|i: int| 0 <= i < q.len() implies one_line(#[trigger] q[i]) by {
            assert(q[i] == ls[i]);
        }
        lemma_kept_lines_props(q, title);
        let l = ls.last();
        let t = strip_tag(l);
        assert(one_line(l));
        assert(one_line(t)) by {
            match (first_index(l, '['), first_index(l, ']')) {
                (Some(a), Some(b)) => if a < b {
                    crate::text::lemma_first_index_bound(l, ']');
                    lemma_sub_one_line(l, b + 1, l.len() as int);
                },
                _ => {},
            }
        }
        crate::text::lemma_trim_len(t);
        let p = kept_lines(q, title);
        if keeps_line(t, title) {
            let r = p.push(t);
            assert forall|i: int| 0 <= i < r.len() implies {
                let k = #[trigger] r[i];
                one_line(k) && keeps_line(k, title) && k.len() > 0
            } by {
                if i < p.len() {
                    assert(r[i] == p[i]);
                }
            }
        }
    }
}

proof fn lemma_kept_lines_fixed(ls: Seq<Seq<char>>, title: Seq<char>)
    requires
        forall|i: int|
            0 <= i < ls.len() ==> strip_tag(#[trigger] ls[i]) == ls[i] && keeps_line(ls[i], title),
    ensures
        kept_lines(ls, title) == ls,
    decreases ls.len(),
{
    if ls.len() > 0 {
        let q = ls.drop_last();
        assert forall|i: int| 0 <= i < q.len() implies strip_tag(#[trigger] q[i]) == q[i]
            && keeps_line(q[i], title) by {
            assert(q[i] == ls[i]);
        }
        lemma_kept_lines_fixed(q, title);
        assert(strip_tag(ls[ls.len() - 1]) == ls.last());
        assert(q.push(ls.last()) =~= ls);
    }
}

proof fn lemma_split_nl_append(a: Seq<char>, b: Seq<char>)
    requires
        one_line(b),
    ensures
        split_nl(a).len() >= 1,
        split_nl(a + b) == split_nl(a).update(
            split_nl(a).len() - 1,
            split_nl(a).last() + b,
        ),
    decreases b.len(),
{
    lemma_split_nl_nonempty(a);
    let p = split_nl(a);
    if b.len() == 0 {
        assert(a + b =~= a);
        assert(p.last() + b =~= p.last());
        assert(p.update(p.len() - 1, p.last()) =~= p);
    } else {
        let c = b.last();
        let b0 = b.drop_last();
        lemma_sub_one_line(b, 0, b.len() - 1);
        assert(b0 =~= b.subrange(0, b.len() - 1));
        lemma_split_nl_append(a, b0);
        assert((a + b).drop_last() =~= a + b0);
        assert(c != '\n') by {
            assert(b[b.len() - 1] == c);
        }
        assert((a + b).last() == c);
        let q = split_nl(a + b0);
        assert(q.last() == p.last() + b0);
        assert(q.last().push(c) =~= p.last() + b);
        assert(q.update(q.len() - 1, q.last().push(c)) =~= p.update(p.len() - 1, p.last() + b));
    }
}

proof fn lemma_split_join(ls: Seq<Seq<char>>)
    requires
        ls.len() >= 1,
        forall|i: int| 0 <= i < ls.len() ==> one_line(#[trigger] ls[i]),
    ensures
        split_nl(join_lines(ls)) == ls,
    decreases ls.len(),
{
    if ls.len() == 1 {
        lemma_split_nl_append(Seq::<char>::empty(), ls[0]);
        assert(Seq::<char>::empty() + ls[0] =~= ls[0]);
        assert(split_nl(Seq::<char>::empty()).last() + ls[0] =~= ls[0]);
        assert(split_nl(Seq::<char>::empty()).update(0, ls[0]) =~= ls);
    } else {
        let q = ls.drop_last();
        assert forall|i: int| 0 <= i < q.len() implies one_line(#[trigger] q[i]) by {
            assert(q[i] == ls[i]);
        }
        lemma_split_join(q);
        let a = join_lines(q) + seq!['\n'];
        assert(a.drop_last() =~= join_lines(q));
        assert(a.last() == '\n');
        assert(split_nl(a) == q.push(Seq::<char>::empty()));
        assert(one_line(ls[ls.len() - 1]));
        lemma_split_nl_append(a, ls.last());
        assert(Seq::<char>::empty() + ls.last() =~= ls.last());
        assert(q.push(Seq::<char>::empty()).update(q.len() as int, ls.last()) =~= ls);
    }
}

/// Non-empty lines without line breaks, joined and split again, give as
/// many lines; the same lines where none but the last ends with a carriage
/// return.
pub proof fn lemma_lines_of_join(ls: Seq<Seq<char>>)
    requires
        forall|i: int| 0 <= i < ls.len() ==> one_line(#[trigger] ls[i]) && ls[i].len() > 0,
    ensures
        text_lines(join_lines(ls)).len() == ls.len(),
        (forall|i: int| 0 <= i < ls.len() - 1 ==> no_trailing_cr(#[trigger] ls[i])) ==> text_lines(
            join_lines(ls),
        ) == ls,
{
    if ls.len() == 0 {
        assert(split_nl(Seq::<char>::empty()).drop_last() =~= Seq::<Seq<char>>::empty());
        assert(text_lines(Seq::<char>::empty()) =~= ls);
    } else {
        lemma_split_join(ls);
        let p = split_nl(join_lines(ls));
        let ended = p.drop_last().map_values(|l: Seq<char>| strip_cr(l));
        assert(ls[ls.len() - 1].len() > 0);
        assert(text_lines(join_lines(ls)) == ended.push(ls.last()));
        if forall|i: int| 0 <= i < ls.len() - 1 ==> no_trailing_cr(#[trigger] ls[i]) {
            assert(ended =~= ls.drop_last()) by {
                assert forall|i: int| 0 <= i < ended.len() implies ended[i] == ls.drop_last()[i] by {
                    assert(no_trailing_cr(ls[i]));
                }
            }
            assert(ls.drop_last().push(ls.last()) =~= ls);
        }
    }
}

/// With fewer than five surviving lines, the excerpt holds all of them and
/// exactly as many lines: nothing is padded.
pub proof fn lemma_short_excerpt_unpadded(text: Seq<char>, title: Seq<char>)
    requires
        surviving_lines(text, title).len() < EXCERPT_LINES,
    ensures
        excerpt_lines(text, title) == surviving_lines(text, title),
        text_lines(lyrics_excerpt(title, text)).len() == surviving_lines(text, title).len(),
{
    lemma_text_lines_one_line(text);
    lemma_kept_lines_props(text_lines(text), title);
    lemma_lines_of_join(surviving_lines(text, title));
}

/// Taking the excerpt of an excerpt changes nothing, for lyrics whose kept
/// lines carry no second bracket tag, and where no kept line but the last
/// ends with a carriage return.
pub proof fn lemma_excerpt_idempotent(text: Seq<char>, title: Seq<char>)
    requires
        forall|i: int|
            0 <= i < excerpt_lines(text, title).len() ==> strip_tag(
                #[trigger] excerpt_lines(text, title)[i],
            ) == excerpt_lines(text, title)[i],
        forall|i: int|
            0 <= i < excerpt_lines(text, title).len() - 1 ==> no_trailing_cr(
                #[trigger] excerpt_lines(text, title)[i],
            ),
    ensures
        lyrics_excerpt(title, lyrics_excerpt(title, text)) == lyrics_excerpt(title, text),
{
    let e = excerpt_lines(text, title);
    let all = surviving_lines(text, title);
    lemma_text_lines_one_line(text);
    lemma_kept_lines_props(text_lines(text), title);
    assert forall|i: int| 0 <= i < e.len() implies one_line(#[trigger] e[i]) && e[i].len() > 0
        && keeps_line(e[i], title) by {
        assert(e[i] == all[i]);
    }
    lemma_lines_of_join(e);
    lemma_kept_lines_fixed(e, title);
    assert(surviving_lines(join_lines(e), title) == e);
}

/// Bytes that the standard base64 alphabet (with padding) decodes a text
/// to, or `None` when the text is not valid base64.
pub uninterp spec fn standard_base64_decoded(text: Seq<char>) -> Option<Seq<u8>>;

#[verifier::external_type_specification]
#[verifier::external_body]
pub struct ExDecodeError(base64::DecodeError);

/// Relies on `base64::engine::general_purpose::STANDARD.decode`: the decoded
/// bytes, or its `DecodeError` when the text is not valid padded base64.
#[verifier::external_body]
fn decode_base64(text: &str) -> (r: Result<Vec<u8>, base64::DecodeError>)
    ensures
        r is Ok <==> standard_base64_decoded(text@) is Some,
        r is Ok ==> r->Ok_0@ == standard_base64_decoded(text@)->0,
{
    base64::engine::general_purpose::STANDARD.decode(text)
}

/// Relies on the `Display` of `base64::DecodeError` to describe the failure.
#[verifier::external_body]
fn describe_decode_error(e: &base64::DecodeError) -> String {
    format!("Failed to decode lyrics: {}", e)
}

/// Relies on `String::from_utf8`: a string exactly when the bytes are valid
/// UTF-8, holding the characters they encode.
#[verifier::external_body]
fn utf8_string(bytes: Vec<u8>) -> (r: Option<String>)
    ensures
        r is Some <==> valid_utf8(bytes@),
        r is Some ==> r->0@ == decode_utf8(bytes@),
{
    String::from_utf8(bytes).ok()
}

/// What decoding a base64 lyrics blob and excerpting it yields: `None` when
/// the blob is not base64 or does not decode to UTF-8 text.
pub open spec fn decoded_excerpt(title: Seq<char>, raw: Seq<char>) -> Option<Seq<char>> {
    match standard_base64_decoded(raw) {
        Some(bytes) => if valid_utf8(bytes) {
            Some(lyrics_excerpt(title, decode_utf8(bytes)))
        } else {
            None
        },
        None => None,
    }
}

/// Decodes a base64 lyrics blob as UTF-8 text and takes its excerpt.
pub fn decode_and_format_lyrics(title: &str, raw_base64_lyrics: &str) -> (r: Result<
    String,
    ApiError,
>)
    ensures
        r is Ok <==> decoded_excerpt(title@, raw_base64_lyrics@) is Some,
        r is Ok ==> r->Ok_0@ == decoded_excerpt(title@, raw_base64_lyrics@)->0,
        r is Err ==> r->Err_0.kind == ErrorKind::InternalError,
{
    let decoded = match decode_base64(raw_base64_lyrics) {
        Ok(bytes) => bytes,
        Err(e) => {
            return Err(ApiError { kind: ErrorKind::InternalError, message: describe_decode_error(&e) });
        },
    };
    match utf8_string(decoded) {
        Some(text) => Ok(format_lyrics(title, text.as_str())),
        None => Err(
            ApiError {
                kind: ErrorKind::InternalError,
                message: "Failed to convert lyrics to UTF-8".to_string(),
            },
        ),
    }
}

} // verus!
