//! The comments of a body: the lines of the source that start with `//`.

use crate::strings::texts;
use vstd::prelude::*;
use vstd::string::{StrSliceExecFns, StringExecFns};

verus! {

/// The lines of a text, as `str::lines` of the standard library gives them.
pub uninterp spec fn text_lines(text: Seq<char>) -> Seq<Seq<char>>;

/// `str::lines` of the standard library: the lines of the text, in their order.
#[verifier::external_body]
pub(crate) fn str_lines(text: &str) -> (lines: Vec<String>)
    ensures
        texts(lines@) == text_lines(text@),
{
    text.lines().map(str::to_owned).collect()
}

/// A text without the white space that it starts with, as `str::trim_start` of the
/// standard library gives it.
pub uninterp spec fn trimmed_start(text: Seq<char>) -> Seq<char>;

/// `str::trim_start` of the standard library: the text without its leading white space.
#[verifier::external_body]
pub(crate) fn str_trim_start<'a>(text: &'a str) -> (r: &'a str)
    ensures
        r@ == trimmed_start(text@),
{
    text.trim_start()
}

/// The text behind the prefix, where the text starts with it.
pub open spec fn stripped(s: Seq<char>, prefix: Seq<char>) -> Option<Seq<char>> {
    if prefix.is_prefix_of(s) {
        Some(s.skip(prefix.len() as int))
    } else {
        None
    }
}

/// The text behind `//`, where the text starts with it.
pub fn strip_slashes<'a>(s: &'a str) -> (r: Option<&'a str>)
    ensures
        match r {
            Some(t) => stripped(s@, "//"@) == Some(t@),
            None => stripped(s@, "//"@) is None,
        },
{
    proof {
        reveal_strlit("//");
    }
    let n = s.unicode_len();
    if n >= 2 && s.get_char(0) == '/' && s.get_char(1) == '/' {
        let t = s.substring_char(2, n);
        proof {
            assert("//"@ =~= seq!['/', '/']);
            assert("//"@.is_prefix_of(s@)) by {
                assert(s@.subrange(0, 2) =~= "//"@);
            }
            assert(s@.skip(2) =~= s@.subrange(2, n as int));
        }
        Some(t)
    } else {
        proof {
            if "//"@.is_prefix_of(s@) {
                assert(s@[0] == "//"@[0]);
                assert(s@[1] == "//"@[1]);
            }
        }
        None
    }
}

/// The text without the one blank that it may start with.
pub open spec fn unpadded(s: Seq<char>) -> Seq<char> {
    match stripped(s, " "@) {
        Some(t) => t,
        None => s,
    }
}

/// The text without the one blank that it may start with.
pub fn strip_blank<'a>(s: &'a str) -> (r: &'a str)
    ensures
        r@ == unpadded(s@),
{
    proof {
        reveal_strlit(" ");
    }
    let n = s.unicode_len();
    if n >= 1 && s.get_char(0) == ' ' {
        let t = s.substring_char(1, n);
        proof {
            assert(" "@ =~= seq![' ']);
            assert(" "@.is_prefix_of(s@)) by {
                assert(s@.subrange(0, 1) =~= " "@);
            }
            assert(s@.skip(1) =~= s@.subrange(1, n as int));
        }
        t
    } else {
        proof {
            if " "@.is_prefix_of(s@) {
                assert(s@[0] == " "@[0]);
            }
        }
        s
    }
}

/// The comment on a line: what stands behind `//` and one blank, where the line
/// starts with `//` after white space.
pub open spec fn note_of(line: Seq<char>) -> Option<Seq<char>> {
    match stripped(trimmed_start(line), "//"@) {
        Some(c) => Some(unpadded(c)),
        None => None,
    }
}

/// The comments of the notes, where there is one.
pub open spec fn note_texts(notes: Seq<Option<String>>) -> Seq<Option<Seq<char>>> {
    Seq::new(
        notes.len(),
        |i: int|
            match notes[i] {
                Some(s) => Some(s@),
                None => None,
            },
    )
}

/// The comment on each line, where the line is a comment.
pub fn line_notes(lines: &Vec<String>) -> (notes: Vec<Option<String>>)
    ensures
        notes@.len() == lines@.len(),
        forall|i: int| 0 <= i < lines@.len() ==> #[trigger] note_texts(notes@)[i] == note_of(lines@[i]@),
{
    let mut notes: Vec<Option<String>> = Vec::new();
    let mut i: usize = 0;
    while i < lines.len()
        invariant
            i <= lines@.len(),
            notes@.len() == i,
            forall|k: int| 0 <= k < i ==> #[trigger] note_texts(notes@)[k] == note_of(lines@[k]@),
        decreases lines@.len() - i,
    {
        let ghost before = notes@;
        let trimmed = str_trim_start(lines[i].as_str());
        let note = match strip_slashes(trimmed) {
            Some(c) => Some(String::from_str(strip_blank(c))),
            None => None,
        };
        notes.push(note);
        proof {
            assert forall|k: int| 0 <= k < i + 1 implies #[trigger] note_texts(notes@)[k] == note_of(
                lines@[k]@,
            ) by {
                if k < i {
                    assert(note_texts(before)[k] == note_of(lines@[k]@));
                }
            }
        }
        i = i + 1;
    }
    notes
}

/// Where the comments start that stand right above line `t`.
pub open spec fn run_start(notes: Seq<Option<Seq<char>>>, t: int) -> int
    decreases t,
{
    if t > 0 && t <= notes.len() && notes[t - 1] is Some {
        run_start(notes, t - 1)
    } else {
        t
    }
}

/// The comments start at or above the line, and not above the first line.
pub proof fn lemma_run_start(notes: Seq<Option<Seq<char>>>, t: int)
    requires
        0 <= t <= notes.len(),
    ensures
        0 <= run_start(notes, t) <= t,
        forall|i: int| run_start(notes, t) <= i < t ==> notes[i] is Some,
        run_start(notes, t) > 0 ==> notes[run_start(notes, t) - 1] is None,
    decreases t,
{
    if t > 0 && notes[t - 1] is Some {
        lemma_run_start(notes, t - 1);
    }
}

/// The comments on the lines from `from` up to `to`.
pub open spec fn notes_between(notes: Seq<Option<Seq<char>>>, from: int, to: int) -> Seq<Seq<char>> {
    Seq::new((to - from) as nat, |i: int| notes[from + i]->0)
}

/// The groups of comments among the first `r` of `n` lines, the last of which has the
/// number `end_line`, from the last group to the first. The last line and every line
/// that is no comment takes the comments that stand right above it, together with its
/// number; a line with no comments above it is left out.
pub open spec fn comment_groups(
    notes: Seq<Option<Seq<char>>>,
    r: int,
    end_line: int,
) -> Seq<(usize, Seq<Seq<char>>)>
    decreases r,
{
    if r <= 0 || r > notes.len() {
        seq![]
    } else {
        let k = run_start(notes, r - 1);
        let rest = if 0 <= k < r {
            comment_groups(notes, k, end_line)
        } else {
            seq![]
        };
        if r - 1 - k > 0 {
            seq![((end_line - (notes.len() - r)) as usize, notes_between(notes, k, r - 1))] + rest
        } else {
            rest
        }
    }
}

/// The groups with their comments as texts.
pub open spec fn group_texts(groups: Seq<(usize, Vec<String>)>) -> Seq<(usize, Seq<Seq<char>>)> {
    Seq::new(groups.len(), |i: int| (groups[i].0, texts(groups[i].1@)))
}

/// Gathers the groups of comments, from the first to the last: for the last line and
/// for every line that is no comment, the comments right above it, with the number of
/// the line. The last line has the number `end_line`, which must be great enough for
/// the first line to have a number.
pub fn gather_comments(notes: &Vec<Option<String>>, end_line: usize) -> (groups: Vec<
    (usize, Vec<String>),
>)
    requires
        notes@.len() <= end_line + 1,
    ensures
        group_texts(groups@) == comment_groups(
            note_texts(notes@),
            notes@.len() as int,
            end_line as int,
        ).reverse(),
{
    let n = notes.len();
    let ghost all = note_texts(notes@);
    let mut found: Vec<(usize, Vec<String>)> = Vec::new();
    let mut r: usize = n;
    while r > 0
        invariant
            n == notes@.len(),
            all == note_texts(notes@),
            n <= end_line + 1,
            r <= n,
            group_texts(found@) + comment_groups(all, r as int, end_line as int) == comment_groups(
                all,
                n as int,
                end_line as int,
            ),
        decreases r,
    {
        let line_nbr = end_line - (n - r);
        let mut k: usize = r - 1;
        while k > 0 && notes[k - 1].is_some()
            invariant
                n == notes@.len(),
                all == note_texts(notes@),
                r <= n,
                r >= 1,
                k <= r - 1,
                run_start(all, r - 1) == run_start(all, k as int),
            decreases k,
        {
            proof {
                assert(all[k - 1] is Some);
            }
            k = k - 1;
        }
        proof {
            if k > 0 {
                assert(all[k - 1] is None);
            }
            assert(run_start(all, r - 1) == k);
            lemma_run_start(all, r - 1);
        }
        let mut comments: Vec<String> = Vec::new();
        let mut i: usize = k;
        while i < r - 1
            invariant
                n == notes@.len(),
                all == note_texts(notes@),
                r <= n,
                r >= 1,
                k <= i <= r - 1,
                run_start(all, r - 1) == k,
                comments@.len() == i - k,
                forall|t: int| k <= t < r - 1 ==> all[t] is Some,
                forall|t: int| 0 <= t < i - k ==> (#[trigger] comments@[t])@ == all[k + t]->0,
            decreases r - 1 - i,
        {
            proof {
                assert(all[i as int] is Some);
            }
            match &notes[i] {
                Some(c) => {
                    comments.push(c.clone());
                },
                None => {},
            }
            i = i + 1;
        }
        let ghost before = found@;
        if comments.len() > 0 {
            proof {
                assert(texts(comments@) =~= notes_between(all, k as int, r - 1));
            }
            found.push((line_nbr, comments));
            proof {
                assert(group_texts(found@) =~= group_texts(before) + seq![
                    (line_nbr, notes_between(all, k as int, r - 1)),
                ]);
                assert(comment_groups(all, r as int, end_line as int) == seq![
                    (line_nbr, notes_between(all, k as int, r - 1)),
                ] + comment_groups(all, k as int, end_line as int));
                let rest = comment_groups(all, k as int, end_line as int);
                let head = seq![(line_nbr, notes_between(all, k as int, r - 1))];
                assert((group_texts(before) + head) + rest =~= group_texts(before) + (head + rest));
            }
        } else {
            proof {
                assert(comment_groups(all, r as int, end_line as int) == comment_groups(
                    all,
                    k as int,
                    end_line as int,
                ));
            }
        }
        r = k;
    }
    proof {
        assert(comment_groups(all, 0, end_line as int) =~= seq![]);
        assert(group_texts(found@) + seq![] =~= group_texts(found@));
    }
    reversed(found)
}

/// The list in the opposite order.
pub fn reversed<T>(v: Vec<T>) -> (r: Vec<T>)
    ensures
        r@ == v@.reverse(),
{
    let mut v = v;
    let ghost given = v@;
    let mut r: Vec<T> = Vec::new();
    while v.len() > 0
        invariant
            v@.len() + r@.len() == given.len(),
            forall|i: int| 0 <= i < v@.len() ==> v@[i] == given[i],
            forall|i: int| 0 <= i < r@.len() ==> r@[i] == given[given.len() - 1 - i],
        decreases v@.len(),
    {
        let x = v.pop().unwrap();
        r.push(x);
    }
    assert(r@ =~= given.reverse());
    r
}

} // verus!
