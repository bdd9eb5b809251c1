//! The landing posts of the command intake channel: their text, and how a
//! long body is split into Discord-sized messages at section boundaries.

use vstd::prelude::*;
use crate::config::Config;
use crate::text::{chars_of, decimal, joined, push_chars, push_decimal, string_of};
use crate::util::str_eq;

verus! {

/// Longest message, in characters, that a landing post may have (short of
/// one section that is longer on its own).
pub const MAX_MESSAGE_LENGTH: usize = 1900;

/// The view of each string in `v`.
pub open spec fn string_views(v: Seq<String>) -> Seq<Seq<char>> {
    v.map_values(|s: String| s@)
}

/// The view of each character vector in `v`.
pub open spec fn char_views(v: Seq<Vec<char>>) -> Seq<Seq<char>> {
    v.map_values(|s: Vec<char>| s@)
}

/// Index of the first `'\n'` in `s`, or -1.
pub open spec fn newline_index(s: Seq<char>) -> int
    decreases s.len(),
{
    if s.len() == 0 {
        -1
    } else if s[0] == '\n' {
        0
    } else {
        let k = newline_index(s.drop_first());
        if k < 0 {
            -1
        } else {
            k + 1
        }
    }
}

/// A line without the `'\r'` of a `"\r\n"` ending.
pub open spec fn strip_cr(line: Seq<char>) -> Seq<char> {
    if line.len() > 0 && line.last() == '\r' {
        line.drop_last()
    } else {
        line
    }
}

/// `str::lines`: split at `"\n"` or `"\r\n"`; a final line ending adds no empty line.
pub open spec fn lines(s: Seq<char>) -> Seq<Seq<char>>
    decreases s.len(),
{
    if s.len() == 0 {
        Seq::empty()
    } else {
        let k = newline_index(s);
        if k < 0 || k >= s.len() {
            seq![s]
        } else {
            seq![strip_cr(s.take(k))] + lines(s.skip(k + 1))
        }
    }
}

/// A line that opens a new section: it starts with `"## "`.
pub open spec fn is_heading(line: Seq<char>) -> bool {
    line.len() >= 3 && line[0] == '#' && line[1] == '#' && line[2] == ' '
}

/// `s` without its trailing newlines.
pub open spec fn trim_trailing_newlines(s: Seq<char>) -> Seq<char>
    decreases s.len(),
{
    if s.len() > 0 && s.last() == '\n' {
        trim_trailing_newlines(s.drop_last())
    } else {
        s
    }
}

/// `sections` with the section under construction closed, if it has any text.
pub open spec fn close_section(sections: Seq<Seq<char>>, current: Seq<char>) -> Seq<Seq<char>> {
    if current.len() == 0 {
        sections
    } else {
        sections.push(trim_trailing_newlines(current))
    }
}

/// Closed sections and the section under construction after reading `ls`:
/// a heading line closes the open section; lines are joined by `'\n'`.
pub open spec fn scan_lines(ls: Seq<Seq<char>>) -> (Seq<Seq<char>>, Seq<char>)
    decreases ls.len(),
{
    if ls.len() == 0 {
        (Seq::empty(), Seq::empty())
    } else {
        let (secs, cur) = scan_lines(ls.drop_last());
        let line = ls.last();
        let (secs2, cur2) = if is_heading(line) && cur.len() > 0 {
            (close_section(secs, cur), Seq::<char>::empty())
        } else {
            (secs, cur)
        };
        let cur3 = if cur2.len() > 0 {
            cur2.push('\n')
        } else {
            cur2
        };
        (secs2, cur3 + line)
    }
}

/// The sections of a body: each `"## "` heading starts one, and the text
/// before the first heading is a section of its own.
pub open spec fn sections_of(body: Seq<char>) -> Seq<Seq<char>> {
    let (secs, cur) = scan_lines(lines(body));
    close_section(secs, cur)
}

/// Closed chunks and the chunk under construction after packing `secs`:
/// sections are joined by a blank line while the chunk stays within
/// `MAX_MESSAGE_LENGTH` characters.
pub open spec fn pack(secs: Seq<Seq<char>>) -> (Seq<Seq<char>>, Seq<char>)
    decreases secs.len(),
{
    if secs.len() == 0 {
        (Seq::empty(), Seq::empty())
    } else {
        let (chunks, cur) = pack(secs.drop_last());
        let sec = secs.last();
        let sep: int = if cur.len() == 0 {
            0
        } else {
            2
        };
        let (chunks2, cur2) = if cur.len() + sep + sec.len() > MAX_MESSAGE_LENGTH && cur.len()
            > 0 {
            (chunks.push(cur), Seq::<char>::empty())
        } else {
            (chunks, cur)
        };
        let cur3 = if cur2.len() > 0 {
            cur2 + seq!['\n', '\n']
        } else {
            cur2
        };
        (chunks2, cur3 + sec)
    }
}

/// The chunks a list of sections is packed into.
pub open spec fn chunks_of_sections(secs: Seq<Seq<char>>) -> Seq<Seq<char>> {
    let (chunks, cur) = pack(secs);
    if cur.len() > 0 {
        chunks.push(cur)
    } else {
        chunks
    }
}

/// `" (1/n)"` when there is more than one message, else nothing.
pub open spec fn part_marker(n: nat) -> Seq<char> {
    if n > 1 {
        " (1/"@ + decimal(n) + ")"@
    } else {
        Seq::empty()
    }
}

/// The messages: the first chunk under the header (with its part marker and
/// a blank line), the others as they are.
pub open spec fn headed(header: Seq<char>, chunks: Seq<Seq<char>>) -> Seq<Seq<char>> {
    Seq::new(
        chunks.len(),
        |i: int|
            if i == 0 {
                header + part_marker(chunks.len()) + seq!['\n', '\n'] + chunks[0]
            } else {
                chunks[i]
            },
    )
}

/// What `split_with_header(header, body)` returns.
pub open spec fn split_with_header_spec(header: Seq<char>, body: Seq<char>) -> Seq<Seq<char>> {
    headed(header, chunks_of_sections(sections_of(body)))
}

proof fn lemma_newline_index_at(s: Seq<char>, i: int)
    requires
        0 <= i < s.len(),
        s[i] == '\n',
        forall|j: int| 0 <= j < i ==> s[j] != '\n',
    ensures
        newline_index(s) == i,
    decreases i,
{
    if i > 0 {
        lemma_newline_index_at(s.drop_first(), i - 1);
    }
}

proof fn lemma_newline_index_none(s: Seq<char>)
    requires
        forall|j: int| 0 <= j < s.len() ==> s[j] != '\n',
    ensures
        newline_index(s) == -1,
    decreases s.len(),
{
    if s.len() > 0 {
        lemma_newline_index_none(s.drop_first());
    }
}

/// `str::lines`, as character vectors.
fn split_lines(s: &Vec<char>) -> (ls: Vec<Vec<char>>)
    ensures
        char_views(ls@) == lines(s@),
{
    let mut ls: Vec<Vec<char>> = Vec::new();
    let mut start: usize = 0;
    let mut i: usize = 0;
    let n: usize = s.len();
    assert(s@.skip(0) =~= s@);
    assert(char_views(ls@) + lines(s@) =~= lines(s@));
    while i < n
        invariant
            n == s@.len(),
            start <= i <= n,
            char_views(ls@) + lines(s@.skip(start as int)) == lines(s@),
            forall|j: int| start <= j < i ==> s@[j] != '\n',
        decreases n - i,
    {
        if s[i] == '\n' {
            let mut line: Vec<char> = Vec::new();
            let mut end: usize = i;
            if end > start && s[end - 1] == '\r' {
                end = end - 1;
            }
            let mut k: usize = start;
            while k < end
                invariant
                    start <= k <= end <= i < n,
                    n == s@.len(),
                    line@ == s@.subrange(start as int, k as int),
                decreases end - k,
            {
                line.push(s[k]);
                assert(s@.subrange(start as int, k + 1) =~= s@.subrange(start as int, k as int).push(
                    s@[k as int],
                ));
                k += 1;
            }
            proof {
                let rest = s@.skip(start as int);
                lemma_newline_index_at(rest, i - start);
                assert(rest.skip(i - start + 1) =~= s@.skip(i + 1));
                assert(rest.take(i - start) =~= s@.subrange(start as int, i as int));
                assert(line@ =~= strip_cr(rest.take(i - start)));
                assert(lines(rest) =~= seq![line@] + lines(s@.skip(i + 1)));
                assert(char_views(ls@.push(line)) =~= char_views(ls@).push(line@));
            }
            ls.push(line);
            start = i + 1;
        }
        i += 1;
    }
    if start < n {
        let mut line: Vec<char> = Vec::new();
        let mut k: usize = start;
        while k < n
            invariant
                start <= k <= n,
                n == s@.len(),
                line@ == s@.subrange(start as int, k as int),
            decreases n - k,
        {
            line.push(s[k]);
            assert(s@.subrange(start as int, k + 1) =~= s@.subrange(start as int, k as int).push(
                s@[k as int],
            ));
            k += 1;
        }
        proof {
            let rest = s@.skip(start as int);
            lemma_newline_index_none(rest);
            assert(line@ =~= rest);
            assert(char_views(ls@.push(line)) =~= char_views(ls@).push(line@));
            assert(lines(rest) =~= seq![line@]);
        }
        ls.push(line);
    } else {
        assert(s@.skip(start as int) =~= Seq::<char>::empty());
        assert(char_views(ls@) =~= char_views(ls@) + Seq::<Seq<char>>::empty());
    }
    ls
}

fn is_heading_line(line: &Vec<char>) -> (b: bool)
    ensures
        b == is_heading(line@),
{
    line.len() >= 3 && line[0] == '#' && line[1] == '#' && line[2] == ' '
}

/// Closes the section under construction: drops its trailing newlines and
/// moves it to `sections`, unless it is empty.
fn push_section(sections: &mut Vec<String>, current: &mut Vec<char>)
    ensures
        string_views(final(sections)@) == close_section(string_views(old(sections)@), old(current)@),
        final(current)@.len() == 0,
{
    if current.len() == 0 {
        return;
    }
    while current.len() > 0 && current[current.len() - 1] == '\n'
        invariant
            trim_trailing_newlines(current@) == trim_trailing_newlines(old(current)@),
            old(current)@.len() > 0,
        decreases current.len(),
    {
        assert(current@.drop_last() =~= current@.subrange(0, current@.len() - 1));
        current.pop();
    }
    let s = string_of(current.as_slice());
    proof {
        assert(trim_trailing_newlines(current@) == current@);
        assert(string_views(sections@.push(s)) =~= string_views(sections@).push(s@));
    }
    sections.push(s);
    *current = Vec::new();
}

/// The sections of `body` (see `sections_of`).
fn split_sections(body: &str) -> (sections: Vec<String>)
    ensures
        string_views(sections@) == sections_of(body@),
{
    let chars = chars_of(body);
    let ls = split_lines(&chars);
    let mut sections: Vec<String> = Vec::new();
    let mut current: Vec<char> = Vec::new();
    let mut k: usize = 0;
    while k < ls.len()
        invariant
            k <= ls@.len(),
            char_views(ls@) == lines(body@),
            (string_views(sections@), current@) == scan_lines(char_views(ls@).take(k as int)),
        decreases ls.len() - k,
    {
        proof {
            assert(char_views(ls@).take(k + 1).drop_last() =~= char_views(ls@).take(k as int));
            assert(char_views(ls@).take(k + 1).last() == ls@[k as int]@);
        }
        let line = &ls[k];
        if is_heading_line(line) && current.len() > 0 {
            push_section(&mut sections, &mut current);
        }
        if current.len() > 0 {
            current.push('\n');
        }
        let mut j: usize = 0;
        let ghost before = current@;
        while j < line.len()
            invariant
                j <= line@.len(),
                current@ == before + line@.take(j as int),
            decreases line.len() - j,
        {
            current.push(line[j]);
            assert(line@.take(j + 1) =~= line@.take(j as int).push(line@[j as int]));
            j += 1;
        }
        assert(line@.take(line@.len() as int) =~= line@);
        k += 1;
    }
    assert(char_views(ls@).take(ls@.len() as int) =~= char_views(ls@));
    push_section(&mut sections, &mut current);
    sections
}

/// Splits `body` into messages of at most `MAX_MESSAGE_LENGTH` characters at
/// section boundaries; the first message carries `header` (and `(1/n)` when
/// there are several).
pub fn split_with_header(header: &str, body: String) -> (messages: Vec<String>)
    ensures
        string_views(messages@) == split_with_header_spec(header@, body@),
{
    let sections = split_sections(body.as_str());
    let mut chunks: Vec<Vec<char>> = Vec::new();
    let mut current: Vec<char> = Vec::new();
    let mut k: usize = 0;
    while k < sections.len()
        invariant
            k <= sections@.len(),
            string_views(sections@) == sections_of(body@),
            (char_views(chunks@), current@) == pack(string_views(sections@).take(k as int)),
        decreases sections.len() - k,
    {
        proof {
            assert(string_views(sections@).take(k + 1).drop_last() =~= string_views(
                sections@,
            ).take(k as int));
            assert(string_views(sections@).take(k + 1).last() == sections@[k as int]@);
        }
        let section = chars_of(sections[k].as_str());
        let sep: u128 = if current.len() == 0 {
            0
        } else {
            2
        };
        if (current.len() as u128) + sep + (section.len() as u128) > (MAX_MESSAGE_LENGTH as u128) {
            if current.len() > 0 {
                proof {
                    assert(char_views(chunks@.push(current)) =~= char_views(chunks@).push(
                        current@,
                    ));
                }
                chunks.push(current);
                current = Vec::new();
            }
        }
        if current.len() > 0 {
            current.push('\n');
            current.push('\n');
            assert(current@ =~= current@.drop_last().drop_last() + seq!['\n', '\n']);
        }
        let mut j: usize = 0;
        let ghost before = current@;
        while j < section.len()
            invariant
                j <= section@.len(),
                current@ == before + section@.take(j as int),
            decreases section.len() - j,
        {
            current.push(section[j]);
            assert(section@.take(j + 1) =~= section@.take(j as int).push(section@[j as int]));
            j += 1;
        }
        assert(section@.take(section@.len() as int) =~= section@);
        k += 1;
    }
    assert(string_views(sections@).take(sections@.len() as int) =~= string_views(sections@));
    if current.len() > 0 {
        proof {
            assert(char_views(chunks@.push(current)) =~= char_views(chunks@).push(current@));
        }
        chunks.push(current);
    }
    let total: usize = chunks.len();
    let mut messages: Vec<String> = Vec::new();
    let mut idx: usize = 0;
    let ghost cs = char_views(chunks@);
    while idx < total
        invariant
            idx <= total == chunks@.len(),
            cs == char_views(chunks@),
            cs == chunks_of_sections(sections_of(body@)),
            string_views(messages@) == headed(header@, cs).take(idx as int),
        decreases total - idx,
    {
        let mut message = String::new();
        if idx == 0 {
            message.append(header);
            if total > 1 {
                message.append(" (1/");
                push_decimal(&mut message, total as u64);
                message.append(")");
            }
            message.append("\n\n");
            assert("\n\n"@ == seq!['\n', '\n']) by {
                reveal_strlit("\n\n");
            }
        }
        let len: usize = chunks[idx].len();
        push_chars(&mut message, chunks[idx].as_slice(), 0, len);
        proof {
            assert(chunks@[idx as int]@.subrange(0, len as int) =~= chunks@[idx as int]@);
            assert(string_views(messages@.push(message)) =~= string_views(messages@).push(
                message@,
            ));
            assert(headed(header@, cs).take(idx + 1) =~= headed(header@, cs).take(idx as int).push(
                headed(header@, cs)[idx as int],
            ));
            if idx == 0 {
                assert(message@ =~= header@ + part_marker(total as nat) + seq!['\n', '\n']
                    + chunks@[0]@);
            }
        }
        messages.push(message);
        idx += 1;
    }
    assert(headed(header@, cs).take(total as int) =~= headed(header@, cs));
    messages
}


proof fn lemma_pack_within_limit(secs: Seq<Seq<char>>)
    ensures
        ({
            let (chunks, cur) = pack(secs);
            &&& forall|i: int|
                0 <= i < chunks.len() ==> #[trigger] chunks[i].len() <= MAX_MESSAGE_LENGTH
                    || secs.contains(chunks[i])
            &&& cur.len() <= MAX_MESSAGE_LENGTH || (secs.len() > 0 && cur == secs.last())
        }),
    decreases secs.len(),
{
    if secs.len() > 0 {
        let prev = secs.drop_last();
        lemma_pack_within_limit(prev);
        let (chunks, cur) = pack(prev);
        assert forall|i: int| 0 <= i < chunks.len() && prev.contains(#[trigger] chunks[i]) implies secs.contains(
            chunks[i],
        ) by {
            let k = choose|k: int| 0 <= k < prev.len() && prev[k] == chunks[i];
            assert(secs[k] == prev[k]);
        }
        if cur.len() > 0 && prev.len() > 0 && cur == prev.last() {
            assert(secs[prev.len() - 1] == cur);
        }
    }
}

/// Every message body that the splitter produces fits in
/// `MAX_MESSAGE_LENGTH` characters, unless it is a single section that is
/// longer on its own.
pub proof fn law_chunks_within_limit(secs: Seq<Seq<char>>)
    ensures
        forall|i: int|
            0 <= i < chunks_of_sections(secs).len() ==> #[trigger] chunks_of_sections(secs)[i].len()
                <= MAX_MESSAGE_LENGTH || secs.contains(chunks_of_sections(secs)[i]),
{
    lemma_pack_within_limit(secs);
    let (chunks, cur) = pack(secs);
    if cur.len() > 0 {
        assert forall|i: int| 0 <= i < chunks.push(cur).len() implies #[trigger] chunks.push(
            cur,
        )[i].len() <= MAX_MESSAGE_LENGTH || secs.contains(chunks.push(cur)[i]) by {
            if i == chunks.len() && cur.len() > MAX_MESSAGE_LENGTH {
                assert(secs[secs.len() - 1] == cur);
            }
        }
    }
}

/// `chunks`, with the chunk under construction appended when it has text.
pub open spec fn with_open_chunk(chunks: Seq<Seq<char>>, cur: Seq<char>) -> Seq<Seq<char>> {
    if cur.len() > 0 {
        chunks.push(cur)
    } else {
        chunks
    }
}

proof fn lemma_joined_push(ss: Seq<Seq<char>>, s: Seq<char>, sep: Seq<char>)
    ensures
        joined(ss.push(s), sep) == (if ss.len() == 0 {
            s
        } else {
            joined(ss, sep) + sep + s
        }),
{
    assert(ss.push(s).drop_last() =~= ss);
    if ss.len() == 0 {
        assert(ss.push(s).len() == 1);
    }
}

proof fn lemma_pack_keeps_text(secs: Seq<Seq<char>>)
    requires
        forall|i: int| 0 <= i < secs.len() ==> (#[trigger] secs[i]).len() > 0,
    ensures
        joined(with_open_chunk(pack(secs).0, pack(secs).1), seq!['\n', '\n']) == joined(
            secs,
            seq!['\n', '\n'],
        ),
        secs.len() > 0 ==> pack(secs).1.len() > 0,
        secs.len() == 0 ==> pack(secs).0.len() == 0 && pack(secs).1.len() == 0,
        pack(secs).1.len() == 0 ==> pack(secs).0.len() == 0,
    decreases secs.len(),
{
    let sep = seq!['\n', '\n'];
    if secs.len() > 0 {
        let prev = secs.drop_last();
        assert forall|i: int| 0 <= i < prev.len() implies (#[trigger] prev[i]).len() > 0 by {
            assert(prev[i] == secs[i]);
        }
        lemma_pack_keeps_text(prev);
        let (chunks, cur) = pack(prev);
        let sec = secs.last();
        assert(sec == secs[secs.len() - 1]);
        assert(secs =~= prev.push(sec));
        lemma_joined_push(prev, sec, sep);
        let sp: int = if cur.len() == 0 {
            0
        } else {
            2
        };
        if cur.len() + sp + sec.len() > MAX_MESSAGE_LENGTH && cur.len() > 0 {
            lemma_joined_push(chunks, cur, sep);
            lemma_joined_push(chunks.push(cur), sec, sep);
        } else if cur.len() == 0 {
            lemma_joined_push(chunks, sec, sep);
        } else {
            lemma_joined_push(chunks, cur, sep);
            lemma_joined_push(chunks, cur + sep + sec, sep);
            assert(cur + sep + sec == (cur + seq!['\n', '\n']) + sec);
            if chunks.len() > 0 {
                assert(joined(chunks, sep) + sep + (cur + sep + sec) =~= joined(chunks, sep) + sep
                    + cur + sep + sec);
            }
        }
    }
}

/// Packing loses no text: with non-empty sections, the message bodies
/// joined by a blank line are the sections joined by a blank line.
pub proof fn law_chunks_keep_text(secs: Seq<Seq<char>>)
    requires
        forall|i: int| 0 <= i < secs.len() ==> (#[trigger] secs[i]).len() > 0,
    ensures
        joined(chunks_of_sections(secs), seq!['\n', '\n']) == joined(secs, seq!['\n', '\n']),
{
    lemma_pack_keeps_text(secs);
}

/// No character of `s` is a newline.
pub open spec fn newline_free(s: Seq<char>) -> bool {
    forall|i: int| 0 <= i < s.len() ==> #[trigger] s[i] != '\n'
}

proof fn lemma_newline_index_facts(s: Seq<char>)
    ensures
        newline_index(s) < s.len(),
        newline_index(s) >= 0 ==> s[newline_index(s)] == '\n' && newline_free(
            s.take(newline_index(s)),
        ),
        newline_index(s) < 0 ==> newline_free(s),
    decreases s.len(),
{
    if s.len() > 0 && s[0] != '\n' {
        let t = s.drop_first();
        lemma_newline_index_facts(t);
        let k = newline_index(t);
        if k >= 0 {
            assert(s[k + 1] == t[k]);
            assert forall|i: int| 0 <= i < k + 1 implies #[trigger] s.take(k + 1)[i] != '\n' by {
                if i > 0 {
                    assert(s.take(k + 1)[i] == t.take(k)[i - 1]);
                }
            }
        } else {
            assert forall|i: int| 0 <= i < s.len() implies #[trigger] s[i] != '\n' by {
                if i > 0 {
                    assert(s[i] == t[i - 1]);
                }
            }
        }
    } else if s.len() > 0 {
        assert(s.take(0) =~= Seq::<char>::empty());
    }
}

proof fn lemma_lines_newline_free(s: Seq<char>)
    ensures
        forall|i: int| 0 <= i < lines(s).len() ==> newline_free(#[trigger] lines(s)[i]),
    decreases s.len(),
{
    if s.len() > 0 {
        lemma_newline_index_facts(s);
        let k = newline_index(s);
        if k >= 0 && k < s.len() {
            lemma_lines_newline_free(s.skip(k + 1));
            let first = strip_cr(s.take(k));
            assert(newline_free(first)) by {
                assert forall|i: int| 0 <= i < first.len() implies #[trigger] first[i] != '\n' by {
                    assert(first[i] == s.take(k)[i]);
                }
            }
            let rest = lines(s.skip(k + 1));
            assert(lines(s) == seq![first] + rest);
            assert forall|i: int| 0 <= i < lines(s).len() implies newline_free(
                #[trigger] lines(s)[i],
            ) by {
                if i > 0 {
                    assert(lines(s)[i] == rest[i - 1]);
                }
            }
        }
    }
}

proof fn lemma_trim_keeps_first(s: Seq<char>)
    requires
        s.len() > 0,
        s[0] != '\n',
    ensures
        trim_trailing_newlines(s).len() > 0,
    decreases s.len(),
{
    if s.last() == '\n' {
        assert(s.len() > 1);
        assert(s.drop_last()[0] == s[0]);
        lemma_trim_keeps_first(s.drop_last());
    }
}

proof fn lemma_scan_nonempty(ls: Seq<Seq<char>>)
    requires
        forall|i: int| 0 <= i < ls.len() ==> newline_free(#[trigger] ls[i]),
    ensures
        forall|i: int|
            0 <= i < scan_lines(ls).0.len() ==> (#[trigger] scan_lines(ls).0[i]).len() > 0,
        scan_lines(ls).1.len() > 0 ==> scan_lines(ls).1[0] != '\n',
    decreases ls.len(),
{
    if ls.len() > 0 {
        let prev = ls.drop_last();
        assert forall|i: int| 0 <= i < prev.len() implies newline_free(#[trigger] prev[i]) by {
            assert(prev[i] == ls[i]);
        }
        lemma_scan_nonempty(prev);
        let (secs, cur) = scan_lines(prev);
        let line = ls.last();
        assert(newline_free(ls[ls.len() - 1]));
        if is_heading(line) && cur.len() > 0 {
            lemma_trim_keeps_first(cur);
            let now = secs.push(trim_trailing_newlines(cur));
            assert(scan_lines(ls).0 == now);
            assert forall|i: int| 0 <= i < now.len() implies (#[trigger] now[i]).len() > 0 by {
                if i < secs.len() {
                    assert(now[i] == scan_lines(prev).0[i]);
                }
            }
            if line.len() > 0 {
                assert((Seq::<char>::empty() + line)[0] == line[0]);
            }
        } else {
            assert forall|i: int| 0 <= i < scan_lines(ls).0.len() implies (
            #[trigger] scan_lines(ls).0[i]).len() > 0 by {
                assert(scan_lines(ls).0[i] == scan_lines(prev).0[i]);
            }
            if cur.len() > 0 {
                assert((cur.push('\n') + line)[0] == cur[0]);
            } else if line.len() > 0 {
                assert((cur + line)[0] == line[0]);
            }
        }
    }
}

/// Every section of a body holds some text.
proof fn lemma_sections_nonempty(body: Seq<char>)
    ensures
        forall|i: int| 0 <= i < sections_of(body).len() ==> (#[trigger] sections_of(body)[i]).len() > 0,
{
    lemma_lines_newline_free(body);
    lemma_scan_nonempty(lines(body));
    let (secs, cur) = scan_lines(lines(body));
    if cur.len() > 0 {
        lemma_trim_keeps_first(cur);
        assert forall|i: int| 0 <= i < sections_of(body).len() implies (
        #[trigger] sections_of(body)[i]).len() > 0 by {
            if i < secs.len() {
                assert(sections_of(body)[i] == secs[i]);
            }
        }
    }
}

/// Splitting a body loses no text: the message bodies, joined by a blank
/// line, are the body's sections joined by a blank line.
pub proof fn law_split_keeps_text(body: Seq<char>)
    ensures
        joined(chunks_of_sections(sections_of(body)), seq!['\n', '\n']) == joined(
            sections_of(body),
            seq!['\n', '\n'],
        ),
{
    lemma_sections_nonempty(body);
    law_chunks_keep_text(sections_of(body));
}

proof fn lemma_scan_plain_lines(ls: Seq<Seq<char>>)
    requires
        ls.len() > 0,
        ls[0].len() > 0,
        forall|i: int| 0 <= i < ls.len() ==> !is_heading(#[trigger] ls[i]),
    ensures
        scan_lines(ls).0.len() == 0,
        scan_lines(ls).1 == joined(ls, seq!['\n']),
        scan_lines(ls).1.len() > 0,
    decreases ls.len(),
{
    let prev = ls.drop_last();
    let line = ls.last();
    assert(!is_heading(ls[ls.len() - 1]));
    if ls.len() == 1 {
        assert(prev.len() == 0);
        assert(scan_lines(prev) == (Seq::<Seq<char>>::empty(), Seq::<char>::empty()));
        assert(Seq::<char>::empty() + line =~= line);
        assert(line == ls[0]);
    } else {
        assert forall|i: int| 0 <= i < prev.len() implies !is_heading(#[trigger] prev[i]) by {
            assert(prev[i] == ls[i]);
        }
        assert(prev[0] == ls[0]);
        lemma_scan_plain_lines(prev);
        let cur = scan_lines(prev).1;
        assert(cur.push('\n') + line =~= joined(prev, seq!['\n']) + seq!['\n'] + line);
    }
}

proof fn lemma_joined_ends_like_last(ls: Seq<Seq<char>>)
    requires
        ls.len() > 0,
        ls.last().len() > 0,
    ensures
        joined(ls, seq!['\n']).len() > 0,
        joined(ls, seq!['\n']).last() == ls.last().last(),
{
    if ls.len() == 1 {
        assert(ls[0] == ls.last());
    } else {
        let j = joined(ls.drop_last(), seq!['\n']) + seq!['\n'] + ls.last();
        assert(j[j.len() - 1] == ls.last()[ls.last().len() - 1]);
    }
}

/// A section keeps every line of the body between its heading and the next
/// one, blank lines included: a body with no `"## "` line, starting and
/// ending on a line with text, is one section, one message body and one
/// message, and that body is the body's lines joined by `'\n'` (so
/// `"p\n\nq"` stays `"p\n\nq"`).
pub proof fn law_section_keeps_its_lines(header: Seq<char>, body: Seq<char>)
    requires
        lines(body).len() > 0,
        lines(body)[0].len() > 0,
        lines(body).last().len() > 0,
        forall|i: int| 0 <= i < lines(body).len() ==> !is_heading(#[trigger] lines(body)[i]),
    ensures
        sections_of(body) == seq![joined(lines(body), seq!['\n'])],
        chunks_of_sections(sections_of(body)) == seq![joined(lines(body), seq!['\n'])],
        split_with_header_spec(header, body) == seq![
            header + seq!['\n', '\n'] + joined(lines(body), seq!['\n']),
        ],
{
    let ls = lines(body);
    lemma_scan_plain_lines(ls);
    lemma_joined_ends_like_last(ls);
    let j = joined(ls, seq!['\n']);
    lemma_lines_newline_free(body);
    assert(newline_free(ls[ls.len() - 1]));
    assert(ls.last()[ls.last().len() - 1] != '\n');
    assert(trim_trailing_newlines(j) == j);
    assert(sections_of(body) =~= seq![j]);
    let secs = seq![j];
    assert(secs.drop_last() =~= Seq::<Seq<char>>::empty());
    assert(Seq::<char>::empty() + j =~= j);
    assert(pack(secs.drop_last()) == (Seq::<Seq<char>>::empty(), Seq::<char>::empty()));
    assert(secs.last() == j);
    assert(pack(secs) == (Seq::<Seq<char>>::empty(), j));
    assert(chunks_of_sections(secs) =~= seq![j]);
    assert(part_marker(1) =~= Seq::<char>::empty());
    assert(split_with_header_spec(header, body) =~= seq![header + seq!['\n', '\n'] + j]);
}

proof fn lemma_trim_keeps_heading(s: Seq<char>)
    requires
        is_heading(s),
    ensures
        is_heading(trim_trailing_newlines(s)),
    decreases s.len(),
{
    if s.last() == '\n' {
        assert(s.len() > 3);
        let t = s.drop_last();
        assert(t[0] == s[0] && t[1] == s[1] && t[2] == s[2]);
        lemma_trim_keeps_heading(t);
    }
}

proof fn lemma_trim_no_trailing_newline(s: Seq<char>)
    ensures
        trim_trailing_newlines(s).len() == 0 || trim_trailing_newlines(s).last() != '\n',
    decreases s.len(),
{
    if s.len() > 0 && s.last() == '\n' {
        lemma_trim_no_trailing_newline(s.drop_last());
    }
}

proof fn lemma_scan_structure(ls: Seq<Seq<char>>)
    ensures
        forall|i: int|
            1 <= i < scan_lines(ls).0.len() ==> is_heading(#[trigger] scan_lines(ls).0[i]),
        forall|i: int|
            0 <= i < scan_lines(ls).0.len() ==> (#[trigger] scan_lines(ls).0[i]).len() == 0
                || scan_lines(ls).0[i].last() != '\n',
        scan_lines(ls).0.len() >= 1 ==> is_heading(scan_lines(ls).1),
    decreases ls.len(),
{
    if ls.len() > 0 {
        let prev = ls.drop_last();
        lemma_scan_structure(prev);
        let (secs, cur) = scan_lines(prev);
        let line = ls.last();
        if is_heading(line) && cur.len() > 0 {
            lemma_trim_no_trailing_newline(cur);
            if secs.len() >= 1 {
                lemma_trim_keeps_heading(cur);
            }
            let now = secs.push(trim_trailing_newlines(cur));
            assert(scan_lines(ls).0 == now);
            assert forall|i: int| 1 <= i < now.len() implies is_heading(#[trigger] now[i]) by {
                if i < secs.len() {
                    assert(now[i] == scan_lines(prev).0[i]);
                }
            }
            assert forall|i: int| 0 <= i < now.len() implies (#[trigger] now[i]).len() == 0
                || now[i].last() != '\n' by {
                if i < secs.len() {
                    assert(now[i] == scan_lines(prev).0[i]);
                }
            }
            assert(Seq::<char>::empty() + line =~= line);
        } else {
            assert forall|i: int| 1 <= i < scan_lines(ls).0.len() implies is_heading(
                #[trigger] scan_lines(ls).0[i],
            ) by {
                assert(scan_lines(ls).0[i] == scan_lines(prev).0[i]);
            }
            assert forall|i: int| 0 <= i < scan_lines(ls).0.len() implies (
            #[trigger] scan_lines(ls).0[i]).len() == 0 || scan_lines(ls).0[i].last() != '\n' by {
                assert(scan_lines(ls).0[i] == scan_lines(prev).0[i]);
            }
            if secs.len() >= 1 {
                let c = cur.push('\n') + line;
                assert(c[0] == cur[0] && c[1] == cur[1] && c[2] == cur[2]);
            }
        }
    }
}

/// The sections of a body are as the splitter promises: each holds text
/// and ends without a newline, and every section but the first opens with
/// a `"## "` heading (the first may be the text before any heading).
pub proof fn law_sections_structure(body: Seq<char>)
    ensures
        forall|i: int| 0 <= i < sections_of(body).len() ==> (#[trigger] sections_of(body)[i]).len() > 0,
        forall|i: int| 0 <= i < sections_of(body).len() ==> (#[trigger] sections_of(body)[i]).last() != '\n',
        forall|i: int| 1 <= i < sections_of(body).len() ==> is_heading(#[trigger] sections_of(body)[i]),
{
    lemma_sections_nonempty(body);
    lemma_scan_structure(lines(body));
    let (secs, cur) = scan_lines(lines(body));
    let all = sections_of(body);
    if cur.len() > 0 {
        lemma_trim_no_trailing_newline(cur);
        if secs.len() >= 1 {
            lemma_trim_keeps_heading(cur);
        }
        assert(all == secs.push(trim_trailing_newlines(cur)));
        assert forall|i: int| 0 <= i < all.len() implies (#[trigger] all[i]).last() != '\n' by {
            assert(all[i].len() > 0);
            if i < secs.len() {
                assert(all[i] == secs[i]);
            }
        }
        assert forall|i: int| 1 <= i < all.len() implies is_heading(#[trigger] all[i]) by {
            if i < secs.len() {
                assert(all[i] == secs[i]);
            }
        }
    } else {
        assert forall|i: int| 0 <= i < all.len() implies (#[trigger] all[i]).last() != '\n' by {
            assert(all[i].len() > 0);
            assert(all[i] == secs[i]);
        }
    }
}

/// Only the first message carries the header; every other message is a
/// chunk of the body as it is.
pub proof fn law_header_only_on_first(header: Seq<char>, body: Seq<char>)
    ensures
        ({
            let chunks = chunks_of_sections(sections_of(body));
            let msgs = split_with_header_spec(header, body);
            &&& msgs.len() == chunks.len()
            &&& msgs.len() > 0 ==> msgs[0] == header + part_marker(chunks.len()) + seq!['\n', '\n']
                + chunks[0]
            &&& forall|i: int| 1 <= i < msgs.len() ==> #[trigger] msgs[i] == chunks[i]
        }),
{
}


/// Header of the English landing post.
pub const EN_HEADER: &'static str = "# Welcome to the Shared Reading Server :books:";

/// Header of the Japanese landing post.
pub const JA_HEADER: &'static str = "# ようこそ、共読サーバーへ :books:";

/// The English landing body, part 0.
pub const EN_BODY_0: &'static str = "A place where people reading the same book can loosely connect.\n\n## :book: Create a Reading Space\n### `/open <ISBN>`\n- Generates a **voice channel (ephemeral)** and a **text channel (persistent)** for the specified book\n- If the channels already exist, you will be guided to them\n- The voice channel automatically disappears after **";

/// The English landing body, part 1.
pub const EN_BODY_1: &'static str = " seconds** of 0 participants\n\n## :eye_in_speech_bubble: Watchlist & Notifications\n### `/watch list`\n- Shows your current watchlist\n- When a watched book’s voice channel becomes active (the first participant joins), you will receive a **DM notification**\n### `/watch add <ISBN1> <ISBN2> ...`\n- Adds one or more books to your watchlist (up to **";

/// The English landing body, part 2.
pub const EN_BODY_2: &'static str = "** entries per user)\n### `/watch remove <ISBN1> <ISBN2> ...`\n- Removes one or more books from your watchlist\n\n## :bell: Enabling DM Notifications\nTo receive active session alerts from the kyodoku app, please enable DMs in Discord:\n**User Settings → Content & Social → Direct Messages → Allow DMs from other members in this server**\nOr:\nRight-click server name → **Privacy Settings → Allow DMs from other members in this server**\n\n## :file_cabinet: Channel Archival\n- Up to **";

/// The English landing body, part 3.
pub const EN_BODY_3: &'static str = "** text channels remain active; older ones move to the archive category\n- Archives are checked every **";

/// The English landing body, part 4.
pub const EN_BODY_4: &'static str = " seconds**\n- Archived channels are deleted after **";

/// The English landing body, part 5.
pub const EN_BODY_5: &'static str = " seconds** unless activity returns\n\n## :zipper_mouth: Spoiler-Friendly Posts\nWhen you want to share impressions without revealing plot points, mark spoilers with `||double bars||`:\n```\nBy the final page, I was shocked that ||the seemingly harmless character was the culprit all along||.\n\nAfter finishing, I'm still thinking about how the author ||leaves\nroom\nfor readers to interpret the ending through sparse descriptions and the placement of symbolic items in the last scene||. Overall, an amazing read!\n```\n> By the final page, I was shocked that ||the seemingly harmless character was the culprit all along||.\n> \n> After finishing, I'm still thinking about how the author ||leaves\n> room\n> for readers to interpret the ending through sparse descriptions and the placement of symbolic items in the last scene||. Overall, an amazing read!\n\n-# Take your time—and enjoy reading at your own pace.";

/// The Japanese landing body, part 0.
pub const JA_BODY_0: &'static str = "同じ本を読む人がゆるくつながるサーバーです。\n\n## :book: 読書空間の作成\n### `/open <ISBN>`\n- その本専用の **ボイスチャンネル** と **テキストチャンネル** を生成します\n- すでにチャンネルが存在する場合は、案内メッセージを表示します\n- ボイスチャンネルは参加者 0人の状態が **";

/// The Japanese landing body, part 1.
pub const JA_BODY_1: &'static str = " 秒** 続くと自動で消えます\n\n## :eye_in_speech_bubble: ウォッチ機能\n### `/watch list`\n- あなたのウォッチリストを表示します\n- ウォッチ中の本のボイスチャンネルがアクティブ（最初の参加者が入室）になると **DM 通知**が届きます\n### `/watch add <ISBN1> <ISBN2> ...`\n- ウォッチリストに本を追加します（複数指定可、1ユーザーあたり最大 **";

/// The Japanese landing body, part 2.
pub const JA_BODY_2: &'static str = " 冊**）\n### `/watch remove <ISBN1> <ISBN2> ...`\n- ウォッチリストから本を削除します（複数指定可）\n\n## :bell: DM 通知を受け取るには\nkyodoku アプリからの通知を受信するために、Discord 側で DM を許可してください：\n**ユーザー設定 → コンテンツ＆ソーシャル → ダイレクトメッセージ → このサーバーのメンバーからのDMを許可**\nまたは：\nサーバー名を右クリック → **プライバシー設定 → このサーバーのメンバーからのDMを許可**\n\n## :file_cabinet: アーカイブに関する注意\n- **";

/// The Japanese landing body, part 3.
pub const JA_BODY_3: &'static str = "** 件までテキストチャンネルを保持し、それ以上はアーカイブカテゴリへ移動します\n- **";

/// The Japanese landing body, part 4.
pub const JA_BODY_4: &'static str = " 秒** ごとにアーカイブ対象を確認します\n- アーカイブ済みチャンネルは活動がなければ **";

/// The Japanese landing body, part 5.
pub const JA_BODY_5: &'static str = " 秒** 後に削除されます\n\n## :zipper_mouth: ネタバレへの配慮\n文芸書などでネタバレを控えながら投稿したい場合、ネタバレ部分をスポイラーとしてマークできます：\n```\n最終ページをめくった感想ですが、||最後に明かされる真犯人が、これまで最も無害に見えた人物だった||という展開に驚かされました。\n\n読了後に考察すべき点として、作者が意図的に||結末の解釈を読者に委ねている\n余白\nの多い描写や、ラストシーンでの象徴的なアイテムの配置||があると感じました。全体的に素晴らしい読書体験でした！\n```\n> 最終ページをめくった感想ですが、||最後に明かされる真犯人が、これまで最も無害に見えた人物だった||という展開に驚かされました。\n> \n> 読了後に考察すべき点として、作者が意図的に||結末の解釈を読者に委ねている\n> 余白\n> の多い描写や、ラストシーンでの象徴的なアイテムの配置||があると感じました。全体的に素晴らしい読書体験でした！\n\n-# どうぞ、あなたのペースで読書をお楽しみください。";

/// A landing body: six fixed parts around the five configured numbers
/// (voice cleanup delay, watchlist limit, text channel capacity, archive
/// poll interval, archive grace period).
pub open spec fn filled_body(parts: Seq<Seq<char>>, c: Config) -> Seq<char> {
    parts[0] + decimal(c.voice_cleanup_delay_seconds as nat) + parts[1] + decimal(
        c.watchlist_limit as nat,
    ) + parts[2] + decimal(c.text_channel_capacity as nat) + parts[3] + decimal(
        c.archive_poll_interval_seconds as nat,
    ) + parts[4] + decimal(c.archive_grace_period_seconds as nat) + parts[5]
}

/// The English landing body for `c`.
pub open spec fn english_body(c: Config) -> Seq<char> {
    filled_body(
        seq![EN_BODY_0@, EN_BODY_1@, EN_BODY_2@, EN_BODY_3@, EN_BODY_4@, EN_BODY_5@],
        c,
    )
}

/// The Japanese landing body for `c`.
pub open spec fn japanese_body(c: Config) -> Seq<char> {
    filled_body(
        seq![JA_BODY_0@, JA_BODY_1@, JA_BODY_2@, JA_BODY_3@, JA_BODY_4@, JA_BODY_5@],
        c,
    )
}

fn fill_body(parts: [&str; 6], c: &Config) -> (body: String)
    ensures
        body@ == filled_body(
            seq![parts[0]@, parts[1]@, parts[2]@, parts[3]@, parts[4]@, parts[5]@],
            *c,
        ),
{
    let mut body = String::from_str(parts[0]);
    push_decimal(&mut body, c.voice_cleanup_delay_seconds);
    body.append(parts[1]);
    push_decimal(&mut body, c.watchlist_limit as u64);
    body.append(parts[2]);
    push_decimal(&mut body, c.text_channel_capacity as u64);
    body.append(parts[3]);
    push_decimal(&mut body, c.archive_poll_interval_seconds);
    body.append(parts[4]);
    push_decimal(&mut body, c.archive_grace_period_seconds);
    body.append(parts[5]);
    body
}

/// The Japanese and English landing posts for `config`, each split into
/// messages under its header.
pub fn desired_posts(config: &Config) -> (posts: (Vec<String>, Vec<String>))
    ensures
        string_views(posts.0@) == split_with_header_spec(JA_HEADER@, japanese_body(*config)),
        string_views(posts.1@) == split_with_header_spec(EN_HEADER@, english_body(*config)),
{
    let english_body = fill_body(
        [EN_BODY_0, EN_BODY_1, EN_BODY_2, EN_BODY_3, EN_BODY_4, EN_BODY_5],
        config,
    );
    let japanese_body = fill_body(
        [JA_BODY_0, JA_BODY_1, JA_BODY_2, JA_BODY_3, JA_BODY_4, JA_BODY_5],
        config,
    );
    (split_with_header(JA_HEADER, japanese_body), split_with_header(EN_HEADER, english_body))
}

/// One step of bringing the posted landing messages in line with the
/// wanted ones. Indices are into the messages already posted.
#[derive(Debug, Clone, PartialEq, Eq)]
pub enum MessageOp {
    /// The message already says the right thing.
    Keep { index: usize },
    /// The message is edited to say `content`.
    Edit { index: usize, content: String },
    /// A new message saying `content` is posted.
    Post { content: String },
    /// A message no longer wanted is deleted.
    Delete { index: usize },
}

/// The step for position `k` of a sync of `existing` towards `desired`:
/// the k-th wanted message reuses the k-th posted one, editing it if its
/// text differs, or is posted anew; posted messages past the wanted ones
/// are deleted.
pub open spec fn sync_op(existing: Seq<Seq<char>>, desired: Seq<Seq<char>>, k: int, op: MessageOp) -> bool {
    if k < desired.len() {
        if k < existing.len() {
            if existing[k] == desired[k] {
                op matches MessageOp::Keep { index } && index == k
            } else {
                op matches MessageOp::Edit { index, content } && index == k && content@ == desired[k]
            }
        } else {
            op matches MessageOp::Post { content } && content@ == desired[k]
        }
    } else {
        op matches MessageOp::Delete { index } && index == k
    }
}

/// The steps that turn the posted messages `existing` into `desired`, in
/// order: one per wanted message, then one deletion per surplus message.
pub fn plan_message_sync(existing: &Vec<String>, desired: &Vec<String>) -> (ops: Vec<MessageOp>)
    ensures
        ops@.len() == (if existing@.len() > desired@.len() {
            existing@.len()
        } else {
            desired@.len()
        }),
        forall|k: int|
            0 <= k < ops@.len() ==> sync_op(
                string_views(existing@),
                string_views(desired@),
                k,
                #[trigger] ops@[k],
            ),
{
    let ghost ex = string_views(existing@);
    let ghost de = string_views(desired@);
    let mut ops: Vec<MessageOp> = Vec::new();
    let mut i: usize = 0;
    while i < desired.len()
        invariant
            i <= desired@.len(),
            ops@.len() == i,
            ex == string_views(existing@),
            de == string_views(desired@),
            forall|k: int| 0 <= k < i ==> sync_op(ex, de, k, #[trigger] ops@[k]),
        decreases desired.len() - i,
    {
        if i < existing.len() {
            if str_eq(existing[i].as_str(), desired[i].as_str()) {
                ops.push(MessageOp::Keep { index: i });
            } else {
                ops.push(MessageOp::Edit { index: i, content: String::from_str(desired[i].as_str()) });
            }
        } else {
            ops.push(MessageOp::Post { content: String::from_str(desired[i].as_str()) });
        }
        i += 1;
    }
    let mut j: usize = desired.len();
    while j < existing.len()
        invariant
            desired@.len() <= j <= existing@.len() || (j == desired@.len() && existing@.len() < j),
            ops@.len() == j,
            ex == string_views(existing@),
            de == string_views(desired@),
            forall|k: int| 0 <= k < j ==> sync_op(ex, de, k, #[trigger] ops@[k]),
        decreases existing.len() - j,
    {
        ops.push(MessageOp::Delete { index: j });
        j += 1;
    }
    ops
}

/// The messages the channel shows after the steps `ops`, in order: each
/// kept, edited or posted message, and none that was deleted.
pub open spec fn shown_after(existing: Seq<Seq<char>>, ops: Seq<MessageOp>) -> Seq<Seq<char>>
    decreases ops.len(),
{
    if ops.len() == 0 {
        Seq::empty()
    } else {
        let rest = shown_after(existing, ops.drop_last());
        match ops.last() {
            MessageOp::Keep { index } => rest.push(existing[index as int]),
            MessageOp::Edit { content, .. } => rest.push(content@),
            MessageOp::Post { content } => rest.push(content@),
            MessageOp::Delete { .. } => rest,
        }
    }
}

proof fn lemma_sync_prefix(existing: Seq<Seq<char>>, desired: Seq<Seq<char>>, ops: Seq<MessageOp>, m: int)
    requires
        0 <= m <= ops.len(),
        forall|k: int| 0 <= k < ops.len() ==> sync_op(existing, desired, k, #[trigger] ops[k]),
    ensures
        shown_after(existing, ops.take(m)) == desired.take(
            if m < desired.len() {
                m
            } else {
                desired.len() as int
            },
        ),
    decreases m,
{
    if m == 0 {
        assert(ops.take(0) =~= Seq::<MessageOp>::empty());
        assert(desired.take(0) =~= Seq::<Seq<char>>::empty());
    } else {
        lemma_sync_prefix(existing, desired, ops, m - 1);
        assert(ops.take(m).drop_last() =~= ops.take(m - 1));
        assert(ops.take(m).last() == ops[m - 1]);
        let op = ops[m - 1];
        assert(sync_op(existing, desired, m - 1, op));
        if m - 1 < desired.len() {
            assert(desired.take(m) =~= desired.take(m - 1).push(desired[m - 1]));
        }
    }
}

/// Carrying out a sync plan leaves the channel showing exactly the wanted
/// messages, in order.
pub proof fn law_sync_shows_desired(
    existing: Seq<Seq<char>>,
    desired: Seq<Seq<char>>,
    ops: Seq<MessageOp>,
)
    requires
        ops.len() == (if existing.len() > desired.len() {
            existing.len()
        } else {
            desired.len()
        }),
        forall|k: int| 0 <= k < ops.len() ==> sync_op(existing, desired, k, #[trigger] ops[k]),
    ensures
        shown_after(existing, ops) == desired,
{
    lemma_sync_prefix(existing, desired, ops, ops.len() as int);
    assert(ops.take(ops.len() as int) =~= ops);
    assert(desired.take(desired.len() as int) =~= desired);
}

} // verus!
