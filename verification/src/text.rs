//! The text flow engine: splitting a run into words and physical lines, and
//! packing words greedily into lines of a bounded number of characters.

use vstd::prelude::*;
use vstd::string::StrSliceExecFns;
use vstd::string::StringExecFns;
use crate::units::max_chars;
use crate::units::spec_max_chars;

verus! {

/// `String::push` of the standard library appends one character to the end
/// of the string and changes nothing else.
pub assume_specification[ String::push ](s: &mut String, c: char)
    ensures
        final(s)@ == old(s)@.push(c),
;

/// The contents of a vector of strings, as character sequences.
pub open spec fn texts(v: Seq<String>) -> Seq<Seq<char>> {
    Seq::new(v.len(), |i: int| v[i]@)
}

/// Whether a character separates words: the characters with the Unicode
/// property `White_Space`.
pub open spec fn spec_is_whitespace(c: char) -> bool {
    let u = c as u32;
    ||| 0x09 <= u <= 0x0D
    ||| u == 0x20
    ||| u == 0x85
    ||| u == 0xA0
    ||| u == 0x1680
    ||| 0x2000 <= u <= 0x200A
    ||| u == 0x2028
    ||| u == 0x2029
    ||| u == 0x202F
    ||| u == 0x205F
    ||| u == 0x3000
}

/// Whether a run holds nothing but whitespace.
pub open spec fn spec_is_blank(s: Seq<char>) -> bool {
    forall|i: int| 0 <= i < s.len() ==> spec_is_whitespace(#[trigger] s[i])
}

/// The length of the longest prefix of `s` without whitespace.
pub open spec fn run_len(s: Seq<char>) -> nat
    decreases s.len(),
{
    if s.len() == 0 || spec_is_whitespace(s[0]) {
        0
    } else {
        1 + run_len(s.skip(1))
    }
}

/// The words of a run: its maximal stretches of characters that are not
/// whitespace, from left to right.
pub open spec fn words(s: Seq<char>) -> Seq<Seq<char>>
    decreases s.len(),
    via words_decreases
{
    if s.len() == 0 {
        Seq::empty()
    } else if spec_is_whitespace(s[0]) {
        words(s.skip(1))
    } else {
        seq![s.take(run_len(s) as int)] + words(s.skip(run_len(s) as int))
    }
}

#[via_fn]
proof fn words_decreases(s: Seq<char>) {
    lemma_run_len_bound(s);
}

/// Greedy packing of words into lines. A word joins the last line, after one
/// space, if the line then holds at most `max_chars` characters; otherwise
/// it starts a new line.
pub open spec fn pack(words: Seq<Seq<char>>, max_chars: nat) -> Seq<Seq<char>>
    decreases words.len(),
{
    if words.len() == 0 {
        Seq::empty()
    } else {
        let lines = pack(words.drop_last(), max_chars);
        let word = words.last();
        if lines.len() > 0 && lines.last().len() + 1 + word.len() <= max_chars {
            lines.drop_last().push(lines.last() + seq![' '] + word)
        } else {
            lines.push(word)
        }
    }
}

/// The parts with one space between each two of them.
pub open spec fn join(parts: Seq<Seq<char>>) -> Seq<char>
    decreases parts.len(),
{
    if parts.len() == 0 {
        Seq::empty()
    } else if parts.len() == 1 {
        parts[0]
    } else {
        join(parts.drop_last()) + seq![' '] + parts.last()
    }
}

/// The lines into which a run is wrapped at `max_chars` characters. A run
/// without words gives one empty line.
pub open spec fn wrap(text: Seq<char>, max_chars: nat) -> Seq<Seq<char>> {
    let lines = pack(words(text), max_chars);
    if lines.len() == 0 {
        seq![Seq::empty()]
    } else {
        lines
    }
}

/// The position of the first line feed in `s`, or the length of `s` if it
/// holds none.
pub open spec fn first_break(s: Seq<char>) -> nat
    decreases s.len(),
{
    if s.len() == 0 || s[0] == '\n' {
        0
    } else {
        1 + first_break(s.skip(1))
    }
}

/// A line without the carriage return that may end it.
pub open spec fn strip_cr(line: Seq<char>) -> Seq<char> {
    if line.len() > 0 && line.last() == '\r' {
        line.drop_last()
    } else {
        line
    }
}

/// The physical lines of a preformatted run. A line ends at a line feed; a
/// carriage return directly before the line feed belongs to the line ending.
/// The ending of the last line is optional.
pub open spec fn physical_lines(s: Seq<char>) -> Seq<Seq<char>>
    decreases s.len(),
{
    if s.len() == 0 {
        Seq::empty()
    } else if first_break(s) < s.len() {
        seq![strip_cr(s.take(first_break(s) as int))] + physical_lines(
            s.skip(first_break(s) as int + 1),
        )
    } else {
        seq![s]
    }
}

/// The leading word of a run is no longer than the run, and not empty
/// where the run starts with a character that is not whitespace.
pub proof fn lemma_run_len_bound(s: Seq<char>)
    ensures
        run_len(s) <= s.len(),
        s.len() > 0 && !spec_is_whitespace(s[0]) ==> run_len(s) >= 1,
    decreases s.len(),
{
    if s.len() > 0 && !spec_is_whitespace(s[0]) {
        lemma_run_len_bound(s.skip(1));
    }
}

/// A stretch of `k` characters without whitespace that ends the run, or
/// that whitespace follows, is the leading word.
pub proof fn lemma_run_len(s: Seq<char>, k: nat)
    requires
        k <= s.len(),
        forall|i: int| 0 <= i < k ==> !spec_is_whitespace(#[trigger] s[i]),
        k == s.len() || spec_is_whitespace(s[k as int]),
    ensures
        run_len(s) == k,
    decreases k,
{
    if k > 0 {
        let t = s.skip(1);
        assert forall|i: int| 0 <= i < k - 1 implies !spec_is_whitespace(#[trigger] t[i]) by {
            assert(t[i] == s[i + 1]);
        }
        lemma_run_len(t, (k - 1) as nat);
    }
}

/// A stretch of `k` characters without a line feed that ends the run, or
/// that a line feed follows, is the first physical line.
pub proof fn lemma_first_break(s: Seq<char>, k: nat)
    requires
        k <= s.len(),
        forall|i: int| 0 <= i < k ==> #[trigger] s[i] != '\n',
        k == s.len() || s[k as int] == '\n',
    ensures
        first_break(s) == k,
    decreases k,
{
    if k > 0 {
        let t = s.skip(1);
        assert forall|i: int| 0 <= i < k - 1 implies #[trigger] t[i] != '\n' by {
            assert(t[i] == s[i + 1]);
        }
        lemma_first_break(t, (k - 1) as nat);
    }
}

/// No character of the leading word of a run is whitespace.
pub proof fn lemma_run_has_no_whitespace(s: Seq<char>)
    ensures
        forall|i: int| 0 <= i < run_len(s) ==> !spec_is_whitespace(#[trigger] s[i]),
    decreases s.len(),
{
    if s.len() > 0 && !spec_is_whitespace(s[0]) {
        let t = s.skip(1);
        lemma_run_has_no_whitespace(t);
        lemma_run_len_bound(s);
        assert forall|i: int| 0 <= i < run_len(s) implies !spec_is_whitespace(#[trigger] s[i]) by {
            if i > 0 {
                assert(s[i] == t[i - 1]);
            }
        }
    }
}

/// Every word of a run holds a character, and none that is whitespace.
pub proof fn lemma_words(s: Seq<char>)
    ensures
        forall|k: int|
            0 <= k < words(s).len() ==> (#[trigger] words(s)[k]).len() > 0 && forall|i: int|
                0 <= i < words(s)[k].len() ==> !spec_is_whitespace(#[trigger] words(s)[k][i]),
        spec_is_blank(s) <==> words(s).len() == 0,
    decreases s.len(),
{
    if s.len() == 0 {
    } else if spec_is_whitespace(s[0]) {
        let t = s.skip(1);
        lemma_words(t);
        if spec_is_blank(s) {
            assert forall|i: int| 0 <= i < t.len() implies spec_is_whitespace(#[trigger] t[i]) by {
                assert(t[i] == s[i + 1]);
            }
        }
        if spec_is_blank(t) {
            assert forall|i: int| 0 <= i < s.len() implies spec_is_whitespace(#[trigger] s[i]) by {
                if i > 0 {
                    assert(s[i] == t[i - 1]);
                }
            }
        }
    } else {
        let n = run_len(s) as int;
        lemma_run_len_bound(s);
        lemma_run_has_no_whitespace(s);
        lemma_words(s.skip(n));
        let first = s.take(n);
        let rest = words(s.skip(n));
        assert(words(s) == seq![first] + rest);
        assert forall|k: int| 0 <= k < words(s).len() implies (#[trigger] words(s)[k]).len() > 0
            && forall|i: int|
            0 <= i < words(s)[k].len() ==> !spec_is_whitespace(#[trigger] words(s)[k][i]) by {
            if k == 0 {
                assert(words(s)[0] == first);
                assert forall|i: int| 0 <= i < first.len() implies !spec_is_whitespace(
                    #[trigger] first[i],
                ) by {
                    assert(first[i] == s[i]);
                }
            } else {
                assert(words(s)[k] == rest[k - 1]);
            }
        }
        assert(!spec_is_whitespace(s[0]));
    }
}

/// Packing gives no line only if there is no word.
pub proof fn lemma_pack_len(all: Seq<Seq<char>>, max_chars: nat)
    ensures
        pack(all, max_chars).len() <= all.len(),
        all.len() > 0 ==> pack(all, max_chars).len() > 0,
    decreases all.len(),
{
    if all.len() > 0 {
        lemma_pack_len(all.drop_last(), max_chars);
    }
}

/// Every packed line holds at most `max_chars` characters or is one of the
/// words.
pub proof fn lemma_pack_bound(all: Seq<Seq<char>>, max_chars: nat)
    ensures
        forall|i: int|
            0 <= i < pack(all, max_chars).len() ==> (#[trigger] pack(all, max_chars)[i]).len()
                <= max_chars || all.contains(pack(all, max_chars)[i]),
    decreases all.len(),
{
    if all.len() > 0 {
        let front = all.drop_last();
        lemma_pack_bound(front, max_chars);
        let lines = pack(front, max_chars);
        let result = pack(all, max_chars);
        assert(all[all.len() - 1] == all.last());
        assert forall|i: int| 0 <= i < result.len() implies (#[trigger] result[i]).len()
            <= max_chars || all.contains(result[i]) by {
            if i < lines.len() && result[i] == lines[i] {
                if lines[i].len() > max_chars {
                    assert(front.contains(lines[i]));
                    let k = choose|k: int| 0 <= k < front.len() && front[k] == lines[i];
                    assert(all[k] == lines[i]);
                }
            }
        }
    }
}

/// Every packed line of words that hold a character, and none that is
/// whitespace, holds such a character too.
pub proof fn lemma_pack_not_blank(all: Seq<Seq<char>>, max_chars: nat)
    requires
        forall|k: int|
            0 <= k < all.len() ==> (#[trigger] all[k]).len() > 0 && !spec_is_whitespace(all[k][0]),
    ensures
        forall|i: int|
            0 <= i < pack(all, max_chars).len() ==> (#[trigger] pack(all, max_chars)[i]).len() > 0
                && !spec_is_whitespace(pack(all, max_chars)[i][0]),
    decreases all.len(),
{
    if all.len() > 0 {
        let front = all.drop_last();
        assert forall|k: int| 0 <= k < front.len() implies (#[trigger] front[k]).len() > 0
            && !spec_is_whitespace(front[k][0]) by {
            assert(front[k] == all[k]);
        }
        lemma_pack_not_blank(front, max_chars);
        let lines = pack(front, max_chars);
        let result = pack(all, max_chars);
        assert(all[all.len() - 1] == all.last());
        assert forall|i: int| 0 <= i < result.len() implies (#[trigger] result[i]).len() > 0
            && !spec_is_whitespace(result[i][0]) by {
            if i < lines.len() {
                assert(lines[i].len() > 0);
                assert(result[i][0] == lines[i][0]);
            }
        }
    }
}

/// A run with a word wraps into lines none of which is blank.
pub proof fn lemma_wrap_not_blank(text: Seq<char>, max_chars: nat)
    requires
        !spec_is_blank(text),
    ensures
        forall|i: int|
            0 <= i < wrap(text, max_chars).len() ==> !spec_is_blank(
                #[trigger] wrap(text, max_chars)[i],
            ),
{
    lemma_words(text);
    let all = words(text);
    assert forall|k: int| 0 <= k < all.len() implies (#[trigger] all[k]).len() > 0
        && !spec_is_whitespace(all[k][0]) by {
        assert(all[k].len() > 0);
    }
    lemma_pack_not_blank(all, max_chars);
    lemma_pack_len(all, max_chars);
    let lines = wrap(text, max_chars);
    assert forall|i: int| 0 <= i < lines.len() implies !spec_is_blank(#[trigger] lines[i]) by {
        assert(!spec_is_whitespace(lines[i][0]));
    }
}

/// Wrapping changes no character: the packed lines, joined by single
/// spaces, are the words joined by single spaces.
pub proof fn lemma_pack_join(all: Seq<Seq<char>>, max_chars: nat)
    ensures
        join(pack(all, max_chars)) == join(all),
    decreases all.len(),
{
    if all.len() > 0 {
        let front = all.drop_last();
        let word = all.last();
        lemma_pack_join(front, max_chars);
        lemma_pack_len(front, max_chars);
        let lines = pack(front, max_chars);
        let result = pack(all, max_chars);
        if lines.len() > 0 && lines.last().len() + 1 + word.len() <= max_chars {
            let merged = lines.last() + seq![' '] + word;
            assert(result == lines.drop_last().push(merged));
            assert(result.last() == merged);
            assert(result.drop_last() =~= lines.drop_last());
            if lines.len() == 1 {
                assert(join(lines) == lines[0]);
                assert(join(result) == merged);
            } else {
                assert(join(result) =~= join(lines.drop_last()) + seq![' '] + merged);
                assert(join(result) =~= join(lines) + seq![' '] + word);
            }
        } else {
            assert(result == lines.push(word));
            assert(result.drop_last() =~= lines);
            assert(result.last() == word);
        }
    }
}

/// Tells whether a character is whitespace.
pub fn is_whitespace(c: char) -> (b: bool)
    ensures
        b == spec_is_whitespace(c),
{
    let u: u32 = c as u32;
    (0x09 <= u && u <= 0x0D) || u == 0x20 || u == 0x85 || u == 0xA0 || u == 0x1680 || (0x2000 <= u
        && u <= 0x200A) || u == 0x2028 || u == 0x2029 || u == 0x202F || u == 0x205F || u == 0x3000
}

/// Tells whether a run holds nothing but whitespace.
pub fn is_blank(text: &str) -> (b: bool)
    ensures
        b == spec_is_blank(text@),
{
    let mut blank: bool = true;
    for c in it: text.chars()
        invariant
            it.seq() == text@,
            blank == spec_is_blank(text@.take(it.index() as int)),
    {
        proof {
            let before = text@.take(it.index() as int);
            let after = text@.take(it.index() + 1);
            assert(after[it.index() as int] == c);
            assert(forall|i: int| 0 <= i < before.len() ==> before[i] == after[i]);
            if spec_is_blank(before) && spec_is_whitespace(c) {
                assert forall|i: int| 0 <= i < after.len() implies spec_is_whitespace(
                    #[trigger] after[i],
                ) by {
                    if i < before.len() {
                        assert(spec_is_whitespace(before[i]));
                    }
                }
            }
            if spec_is_blank(after) {
                assert forall|i: int| 0 <= i < before.len() implies spec_is_whitespace(
                    #[trigger] before[i],
                ) by {
                    assert(spec_is_whitespace(after[i]));
                }
            }
        }
        if !is_whitespace(c) {
            blank = false;
        }
    }
    assert(text@.take(text@.len() as int) =~= text@);
    blank
}

/// Collects the characters of a run.
pub fn chars_of(text: &str) -> (chars: Vec<char>)
    ensures
        chars@ == text@,
{
    let mut chars: Vec<char> = Vec::new();
    for c in it: text.chars()
        invariant
            it.seq() == text@,
            chars@ == text@.take(it.index() as int),
    {
        chars.push(c);
        assert(text@.take(it.index() + 1) =~= text@.take(it.index() as int).push(c));
    }
    assert(text@.take(text@.len() as int) =~= text@);
    chars
}

/// Builds the string of the characters `chars[from..to]`.
pub fn string_of(chars: &Vec<char>, from: usize, to: usize) -> (s: String)
    requires
        from <= to <= chars.len(),
    ensures
        s@ == chars@.subrange(from as int, to as int),
{
    let mut s: String = String::new();
    let mut i: usize = from;
    while i < to
        invariant
            from <= i <= to <= chars.len(),
            s@ == chars@.subrange(from as int, i as int),
        decreases to - i,
    {
        s.push(chars[i]);
        assert(chars@.subrange(from as int, i + 1) =~= chars@.subrange(from as int, i as int).push(
            chars@[i as int],
        ));
        i += 1;
    }
    s
}

/// Splits a run into its words.
pub fn split_words(text: &str) -> (out: Vec<String>)
    ensures
        texts(out@) == words(text@),
{
    let chars: Vec<char> = chars_of(text);
    let n: usize = chars.len();
    let mut out: Vec<String> = Vec::new();
    let mut i: usize = 0;
    assert(chars@.skip(0) =~= chars@);
    assert(texts(out@) + words(chars@) =~= words(chars@));
    while i < n
        invariant
            n == chars.len(),
            i <= n,
            texts(out@) + words(chars@.skip(i as int)) == words(chars@),
        decreases n - i,
    {
        let ghost rest = chars@.skip(i as int);
        assert(rest[0] == chars@[i as int]);
        if is_whitespace(chars[i]) {
            assert(rest.skip(1) =~= chars@.skip(i + 1));
            i += 1;
        } else {
            let start: usize = i;
            let mut j: usize = i + 1;
            while j < n && !is_whitespace(chars[j])
                invariant
                    n == chars.len(),
                    start < j <= n,
                    forall|k: int| start <= k < j ==> !spec_is_whitespace(#[trigger] chars@[k]),
                decreases n - j,
            {
                j += 1;
            }
            let word: String = string_of(&chars, start, j);
            proof {
                assert forall|k: int| 0 <= k < j - start implies !spec_is_whitespace(
                    #[trigger] rest[k],
                ) by {
                    assert(rest[k] == chars@[start + k]);
                }
                if j < n {
                    assert(rest[j - start] == chars@[j as int]);
                }
                lemma_run_len(rest, (j - start) as nat);
                assert(rest.take(j - start) =~= chars@.subrange(start as int, j as int));
                assert(rest.skip(j - start) =~= chars@.skip(j as int));
                assert(texts(out@.push(word)) =~= texts(out@) + seq![word@]);
                assert((texts(out@) + seq![word@]) + words(chars@.skip(j as int)) =~= texts(out@)
                    + (seq![word@] + words(chars@.skip(j as int))));
            }
            out.push(word);
            i = j;
        }
    }
    assert(texts(out@) + words(chars@.skip(n as int)) =~= texts(out@));
    out
}

/// Packs words greedily into lines of at most `max_chars` characters.
pub fn wrap_words(words: &Vec<String>, max_chars: u64) -> (lines: Vec<String>)
    ensures
        texts(lines@) == pack(texts(words@), max_chars as nat),
{
    let n: usize = words.len();
    let mut lines: Vec<String> = Vec::new();
    let ghost all = texts(words@);
    if n == 0 {
        assert(texts(lines@) =~= pack(all, max_chars as nat));
        return lines;
    }
    let mut cur: String = words[0].clone();
    let mut cur_len: u64 = words[0].as_str().unicode_len() as u64;
    let mut i: usize = 1;
    proof {
        assert(all.take(1).drop_last() =~= Seq::<Seq<char>>::empty());
        assert(all.take(1).last() == words@[0]@);
        assert(pack(Seq::<Seq<char>>::empty(), max_chars as nat) =~= Seq::<Seq<char>>::empty());
        assert(texts(lines@).push(cur@) =~= pack(all.take(1), max_chars as nat));
    }
    while i < n
        invariant
            n == words.len(),
            all == texts(words@),
            1 <= i <= n,
            cur_len == cur@.len(),
            texts(lines@).push(cur@) == pack(all.take(i as int), max_chars as nat),
        decreases n - i,
    {
        let word: &String = &words[i];
        let word_len: u64 = word.as_str().unicode_len() as u64;
        let ghost before = pack(all.take(i as int), max_chars as nat);
        proof {
            assert(all.take(i + 1).drop_last() =~= all.take(i as int));
            assert(all.take(i + 1).last() == word@);
            assert(before.last() == cur@);
            assert(before.drop_last() =~= texts(lines@));
        }
        if cur_len < max_chars && word_len <= max_chars - cur_len - 1 {
            cur.push(' ');
            cur.append(word.as_str());
            cur_len = cur_len + 1 + word_len;
            assert(cur@ =~= before.last() + seq![' '] + word@);
        } else {
            proof {
                assert(texts(lines@.push(cur)) =~= texts(lines@).push(cur@));
            }
            lines.push(cur);
            cur = word.clone();
            cur_len = word_len;
        }
        i += 1;
    }
    proof {
        assert(all.take(n as int) =~= all);
        assert(texts(lines@.push(cur)) =~= texts(lines@).push(cur@));
    }
    lines.push(cur);
    lines
}

/// Wraps a run into lines that fit `max_width` EMU at `font_size` points,
/// under the fixed-width approximation of the character width.
pub fn wrap_text(text: &str, max_width: u64, font_size: u64) -> (lines: Vec<String>)
    requires
        font_size > 0,
    ensures
        texts(lines@) == wrap(text@, spec_max_chars(max_width as nat, font_size as nat)),
        forall|i: int|
            0 <= i < lines@.len() ==> (#[trigger] lines@[i])@.len() <= spec_max_chars(
                max_width as nat,
                font_size as nat,
            ) || words(text@).contains(lines@[i]@),
{
    let parts: Vec<String> = split_words(text);
    let mut lines: Vec<String> = wrap_words(&parts, max_chars(max_width, font_size));
    if lines.len() == 0 {
        lines.push(String::new());
        assert(texts(lines@) =~= seq![Seq::<char>::empty()]);
    }
    proof {
        let bound = spec_max_chars(max_width as nat, font_size as nat);
        lemma_pack_bound(words(text@), bound);
        assert forall|i: int| 0 <= i < lines@.len() implies (#[trigger] lines@[i])@.len() <= bound
            || words(text@).contains(lines@[i]@) by {
            assert(texts(lines@)[i] == lines@[i]@);
        }
    }
    lines
}

/// Splits a preformatted run into its physical lines.
pub fn split_lines(text: &str) -> (out: Vec<String>)
    ensures
        texts(out@) == physical_lines(text@),
{
    let chars: Vec<char> = chars_of(text);
    let n: usize = chars.len();
    let mut out: Vec<String> = Vec::new();
    let mut start: usize = 0;
    let mut i: usize = 0;
    assert(chars@.skip(0) =~= chars@);
    assert(texts(out@) + physical_lines(chars@) =~= physical_lines(chars@));
    while i < n
        invariant
            n == chars.len(),
            start <= i <= n,
            forall|k: int| start <= k < i ==> #[trigger] chars@[k] != '\n',
            texts(out@) + physical_lines(chars@.skip(start as int)) == physical_lines(chars@),
        decreases n - i,
    {
        if chars[i] == '\n' {
            let end: usize = if start < i && chars[i - 1] == '\r' {
                i - 1
            } else {
                i
            };
            let line: String = string_of(&chars, start, end);
            proof {
                let rest = chars@.skip(start as int);
                assert forall|k: int| 0 <= k < i - start implies #[trigger] rest[k] != '\n' by {
                    assert(rest[k] == chars@[start + k]);
                }
                assert(rest[i - start] == chars@[i as int]);
                lemma_first_break(rest, (i - start) as nat);
                let full = rest.take(i - start);
                assert(full =~= chars@.subrange(start as int, i as int));
                if start < i {
                    assert(full.last() == chars@[i - 1]);
                }
                assert(strip_cr(full) =~= chars@.subrange(start as int, end as int));
                assert(rest.skip(i - start + 1) =~= chars@.skip(i + 1));
                assert(texts(out@.push(line)) =~= texts(out@) + seq![line@]);
                assert((texts(out@) + seq![line@]) + physical_lines(chars@.skip(i + 1)) =~= texts(
                    out@,
                ) + (seq![line@] + physical_lines(chars@.skip(i + 1))));
            }
            out.push(line);
            start = i + 1;
        }
        i += 1;
    }
    if start < n {
        let line: String = string_of(&chars, start, n);
        proof {
            let rest = chars@.skip(start as int);
            assert forall|k: int| 0 <= k < n - start implies #[trigger] rest[k] != '\n' by {
                assert(rest[k] == chars@[start + k]);
            }
            lemma_first_break(rest, (n - start) as nat);
            assert(rest =~= chars@.subrange(start as int, n as int));
            assert(texts(out@.push(line)) =~= texts(out@) + seq![line@]);
        }
        out.push(line);
    } else {
        assert(texts(out@) + physical_lines(chars@.skip(start as int)) =~= texts(out@));
    }
    out
}

} // verus!
