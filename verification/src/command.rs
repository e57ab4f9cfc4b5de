//! The command grammar of the local input: `join <group>` and
//! `post <group> <message...>`, one command per line.

use crate::message::{OutboundRequest, Request};
use crate::text::{chars_of, is_whitespace, string_of, whitespace};
use vstd::prelude::*;

verus! {

/// Why a line of input is not a command.
#[derive(Debug, Clone, Copy, PartialEq, Eq, Structural)]
pub enum Rejection {
    /// The line holds nothing but whitespace.
    Blank,
    /// The first word is neither `join` nor `post`.
    UnknownCommand,
    /// The command is not followed by a group name.
    MissingGroup,
    /// `join` is followed by more than a group name.
    TrailingText,
}

/// The number of whitespace characters that `s` starts with.
pub open spec fn leading_whitespace(s: Seq<char>) -> nat
    decreases s.len(),
{
    if s.len() > 0 && is_whitespace(s[0]) {
        1 + leading_whitespace(s.drop_first())
    } else {
        0
    }
}

/// The number of characters of `s` before its first whitespace character.
pub open spec fn leading_word(s: Seq<char>) -> nat
    decreases s.len(),
{
    if s.len() > 0 && !is_whitespace(s[0]) {
        1 + leading_word(s.drop_first())
    } else {
        0
    }
}

/// `s` without the whitespace it starts with.
pub open spec fn trim_start(s: Seq<char>) -> Seq<char> {
    s.skip(leading_whitespace(s) as int)
}

/// The first word of `s` and what follows it, or `None` where `s` holds no word.
pub open spec fn next_token(s: Seq<char>) -> Option<(Seq<char>, Seq<char>)> {
    let t = trim_start(s);
    if t.len() == 0 {
        None
    } else {
        Some((t.take(leading_word(t) as int), t.skip(leading_word(t) as int)))
    }
}

pub open spec fn join_word() -> Seq<char> {
    seq!['j', 'o', 'i', 'n']
}

pub open spec fn post_word() -> Seq<char> {
    seq!['p', 'o', 's', 't']
}

/// What a line of input means: the request it asks for, or why it asks for none.
pub open spec fn command_of(line: Seq<char>) -> Result<Request, Rejection> {
    match next_token(line) {
        None => Err(Rejection::Blank),
        Some((command, rest)) => {
            if command == post_word() {
                match next_token(rest) {
                    None => Err(Rejection::MissingGroup),
                    Some((group, tail)) => Ok(
                        Request::Post { group_name: group, message: trim_start(tail) },
                    ),
                }
            } else if command == join_word() {
                match next_token(rest) {
                    None => Err(Rejection::MissingGroup),
                    Some((group, tail)) => if trim_start(tail).len() == 0 {
                        Ok(Request::Join { group_name: group })
                    } else {
                        Err(Rejection::TrailingText)
                    },
                }
            } else {
                Err(Rejection::UnknownCommand)
            }
        },
    }
}

pub proof fn lemma_leading_whitespace(s: Seq<char>)
    ensures
        leading_whitespace(s) <= s.len(),
        forall|i: int| 0 <= i < leading_whitespace(s) ==> is_whitespace(#[trigger] s[i]),
        leading_whitespace(s) < s.len() ==> !is_whitespace(s[leading_whitespace(s) as int]),
    decreases s.len(),
{
    if s.len() > 0 && is_whitespace(s[0]) {
        let t = s.drop_first();
        lemma_leading_whitespace(t);
        assert forall|i: int| 0 <= i < leading_whitespace(s) implies is_whitespace(
            #[trigger] s[i],
        ) by {
            if i > 0 {
                assert(s[i] == t[i - 1]);
            }
        }
        if leading_whitespace(s) < s.len() {
            assert(s[leading_whitespace(s) as int] == t[leading_whitespace(t) as int]);
        }
    }
}

pub proof fn lemma_leading_word(s: Seq<char>)
    ensures
        leading_word(s) <= s.len(),
        forall|i: int| 0 <= i < leading_word(s) ==> !is_whitespace(#[trigger] s[i]),
        leading_word(s) < s.len() ==> is_whitespace(s[leading_word(s) as int]),
    decreases s.len(),
{
    if s.len() > 0 && !is_whitespace(s[0]) {
        let t = s.drop_first();
        lemma_leading_word(t);
        assert forall|i: int| 0 <= i < leading_word(s) implies !is_whitespace(
            #[trigger] s[i],
        ) by {
            if i > 0 {
                assert(s[i] == t[i - 1]);
            }
        }
        if leading_word(s) < s.len() {
            assert(s[leading_word(s) as int] == t[leading_word(t) as int]);
        }
    }
}

/// The run of whitespace at the start of `s` is the only prefix of `s` that is
/// all whitespace and is followed by something else, or by nothing.
pub proof fn lemma_leading_whitespace_unique(s: Seq<char>, n: int)
    requires
        0 <= n <= s.len(),
        forall|i: int| 0 <= i < n ==> is_whitespace(#[trigger] s[i]),
        n < s.len() ==> !is_whitespace(s[n]),
    ensures
        leading_whitespace(s) == n,
{
    lemma_leading_whitespace(s);
    let m = leading_whitespace(s) as int;
    if m < n {
        assert(is_whitespace(s[m]));
    } else if n < m {
        assert(is_whitespace(s[n]));
    }
}

/// The word at the start of `s` is the only prefix of `s` that is free of
/// whitespace and is followed by whitespace, or by nothing.
pub proof fn lemma_leading_word_unique(s: Seq<char>, n: int)
    requires
        0 <= n <= s.len(),
        forall|i: int| 0 <= i < n ==> !is_whitespace(#[trigger] s[i]),
        n < s.len() ==> is_whitespace(s[n]),
    ensures
        leading_word(s) == n,
{
    lemma_leading_word(s);
    let m = leading_word(s) as int;
    if m < n {
        assert(!is_whitespace(s[m]));
    } else if n < m {
        assert(!is_whitespace(s[n]));
    }
}

/// Whether `s` holds nothing but whitespace.
pub open spec fn is_blank(s: Seq<char>) -> bool {
    forall|i: int| 0 <= i < s.len() ==> is_whitespace(#[trigger] s[i])
}

/// Whether `s` is a word: at least one character, and no whitespace.
pub open spec fn is_word(s: Seq<char>) -> bool {
    s.len() > 0 && forall|i: int| 0 <= i < s.len() ==> !is_whitespace(#[trigger] s[i])
}

/// Whether `s` can follow a word: it is empty or starts with whitespace.
pub open spec fn ends_word(s: Seq<char>) -> bool {
    s.len() > 0 ==> is_whitespace(s[0])
}

/// A word between leading whitespace and whatever ends it is the first token,
/// and what ends it is the rest.
pub proof fn lemma_next_token(lead: Seq<char>, word: Seq<char>, tail: Seq<char>)
    requires
        is_blank(lead),
        is_word(word),
        ends_word(tail),
    ensures
        next_token(lead + word + tail) == Some((word, tail)),
{
    let s = lead + word + tail;
    lemma_leading_whitespace_unique(s, lead.len() as int);
    let t = s.skip(lead.len() as int);
    assert(t =~= word + tail);
    lemma_leading_word_unique(t, word.len() as int);
    assert(t.take(word.len() as int) =~= word);
    assert(t.skip(word.len() as int) =~= tail);
}

/// Trimming removes exactly the whitespace in front of text that starts with
/// none.
pub proof fn lemma_trim_start(lead: Seq<char>, text: Seq<char>)
    requires
        is_blank(lead),
        text.len() > 0 ==> !is_whitespace(text[0]),
    ensures
        trim_start(lead + text) == text,
{
    let s = lead + text;
    lemma_leading_whitespace_unique(s, lead.len() as int);
    assert(s.skip(lead.len() as int) =~= text);
}

/// Text that holds a character other than whitespace does not trim to nothing.
pub proof fn lemma_trim_start_keeps_text(s: Seq<char>)
    requires
        !is_blank(s),
    ensures
        trim_start(s).len() > 0,
{
    lemma_leading_whitespace(s);
}

/// A `post` line gives its group and its message: the message is all that
/// follows the whitespace after the group name, kept as it is, and may be empty.
pub proof fn law_post(
    lead: Seq<char>,
    gap: Seq<char>,
    group: Seq<char>,
    sep: Seq<char>,
    message: Seq<char>,
)
    requires
        is_blank(lead),
        is_blank(gap) && gap.len() > 0,
        is_word(group),
        is_blank(sep),
        message.len() > 0 ==> sep.len() > 0 && !is_whitespace(message[0]),
    ensures
        command_of(lead + post_word() + gap + group + sep + message) == Ok::<Request, Rejection>(
            Request::Post { group_name: group, message },
        ),
{
    let line = lead + post_word() + gap + group + sep + message;
    let rest = gap + group + (sep + message);
    assert(line =~= lead + post_word() + rest);
    lemma_next_token(lead, post_word(), rest);
    lemma_next_token(gap, group, sep + message);
    lemma_trim_start(sep, message);
}

/// A `join` line with nothing but whitespace after the group name gives its
/// group.
pub proof fn law_join(lead: Seq<char>, gap: Seq<char>, group: Seq<char>, trail: Seq<char>)
    requires
        is_blank(lead),
        is_blank(gap) && gap.len() > 0,
        is_word(group),
        is_blank(trail),
    ensures
        command_of(lead + join_word() + gap + group + trail) == Ok::<Request, Rejection>(
            Request::Join { group_name: group },
        ),
{
    let line = lead + join_word() + gap + group + trail;
    let rest = gap + group + trail;
    assert(line =~= lead + join_word() + rest);
    lemma_next_token(lead, join_word(), rest);
    lemma_next_token(gap, group, trail);
    lemma_trim_start(trail, Seq::<char>::empty());
    assert(trail + Seq::<char>::empty() =~= trail);
}

/// A `join` line with anything but whitespace after the group name is
/// rejected.
pub proof fn law_join_trailing(
    lead: Seq<char>,
    gap: Seq<char>,
    group: Seq<char>,
    tail: Seq<char>,
)
    requires
        is_blank(lead),
        is_blank(gap) && gap.len() > 0,
        is_word(group),
        ends_word(tail),
        !is_blank(tail),
    ensures
        command_of(lead + join_word() + gap + group + tail) == Err::<Request, Rejection>(
            Rejection::TrailingText,
        ),
{
    let line = lead + join_word() + gap + group + tail;
    let rest = gap + group + tail;
    assert(line =~= lead + join_word() + rest);
    lemma_next_token(lead, join_word(), rest);
    lemma_next_token(gap, group, tail);
    lemma_trim_start_keeps_text(tail);
}

/// A line whose first word is neither `post` nor `join` is rejected, whatever
/// follows the word.
pub proof fn law_unknown_command(lead: Seq<char>, word: Seq<char>, tail: Seq<char>)
    requires
        is_blank(lead),
        is_word(word),
        ends_word(tail),
        word != post_word(),
        word != join_word(),
    ensures
        command_of(lead + word + tail) == Err::<Request, Rejection>(Rejection::UnknownCommand),
{
    lemma_next_token(lead, word, tail);
}

/// A command with no group name after it is rejected, and so is a line with
/// no word at all.
pub proof fn law_missing_words(lead: Seq<char>, trail: Seq<char>)
    requires
        is_blank(lead),
        is_blank(trail),
    ensures
        command_of(lead + trail) == Err::<Request, Rejection>(Rejection::Blank),
        command_of(lead + post_word() + trail) == Err::<Request, Rejection>(
            Rejection::MissingGroup,
        ),
        command_of(lead + join_word() + trail) == Err::<Request, Rejection>(
            Rejection::MissingGroup,
        ),
{
    let blank = lead + trail;
    lemma_leading_whitespace_unique(blank, blank.len() as int);
    lemma_leading_whitespace_unique(trail, trail.len() as int);
    lemma_next_token(lead, post_word(), trail);
    lemma_next_token(lead, join_word(), trail);
}

/// The end of the run of whitespace that starts at `from`.
fn whitespace_end(v: &Vec<char>, from: usize) -> (to: usize)
    requires
        from <= v.len(),
    ensures
        to == from + leading_whitespace(v@.skip(from as int)),
        from <= to <= v.len(),
{
    let mut i: usize = from;
    while i < v.len() && whitespace(v[i])
        invariant
            from <= i <= v.len(),
            forall|k: int| from <= k < i ==> is_whitespace(#[trigger] v@[k]),
        decreases v.len() - i,
    {
        i += 1;
    }
    proof {
        lemma_leading_whitespace_unique(v@.skip(from as int), i - from);
    }
    i
}

/// The end of the word that starts at `from`.
fn word_end(v: &Vec<char>, from: usize) -> (to: usize)
    requires
        from <= v.len(),
    ensures
        to == from + leading_word(v@.skip(from as int)),
        from <= to <= v.len(),
{
    let mut i: usize = from;
    while i < v.len() && !whitespace(v[i])
        invariant
            from <= i <= v.len(),
            forall|k: int| from <= k < i ==> !is_whitespace(#[trigger] v@[k]),
        decreases v.len() - i,
    {
        i += 1;
    }
    proof {
        lemma_leading_word_unique(v@.skip(from as int), i - from);
    }
    i
}

/// Where the first word at or after `from` starts and ends.
fn token_at(v: &Vec<char>, from: usize) -> (r: Option<(usize, usize)>)
    requires
        from <= v.len(),
    ensures
        match r {
            Some((start, end)) => {
                &&& from <= start < end <= v.len()
                &&& start == from + leading_whitespace(v@.skip(from as int))
                &&& next_token(v@.skip(from as int)) == Some(
                    (v@.subrange(start as int, end as int), v@.skip(end as int)),
                )
            },
            None => next_token(v@.skip(from as int)) is None,
        },
{
    let start = whitespace_end(v, from);
    assert(v@.skip(from as int).skip(start - from) =~= v@.skip(start as int));
    if start == v.len() {
        return None;
    }
    let end = word_end(v, start);
    proof {
        let t = v@.skip(start as int);
        assert(t.take(end - start) =~= v@.subrange(start as int, end as int));
        assert(t.skip(end - start) =~= v@.skip(end as int));
        assert(!is_whitespace(t[0])) by {
            lemma_leading_whitespace(v@.skip(from as int));
        }
    }
    Some((start, end))
}

/// Splits off the first word of `input`: the word, and what follows it.
/// `None` where `input` holds no word.
pub fn get_next_token(input: &str) -> (r: Option<(&str, &str)>)
    ensures
        match r {
            Some((word, rest)) => next_token(input@) == Some((word@, rest@)),
            None => next_token(input@) is None,
        },
{
    let v = chars_of(input);
    assert(v@.skip(0) =~= v@);
    match token_at(&v, 0) {
        None => None,
        Some((start, end)) => {
            assert(v@.skip(end as int) =~= v@.subrange(end as int, v@.len() as int));
            Some((input.substring_char(start, end), input.substring_char(end, v.len())))
        },
    }
}

fn is_post(v: &Vec<char>, start: usize, end: usize) -> (r: bool)
    requires
        start <= end <= v.len(),
    ensures
        r == (v@.subrange(start as int, end as int) == post_word()),
{
    let r = end - start == 4 && v[start] == 'p' && v[start + 1] == 'o' && v[start + 2] == 's'
        && v[start + 3] == 't';
    proof {
        let w = v@.subrange(start as int, end as int);
        if r {
            assert(w =~= post_word());
        } else if w == post_word() {
            assert(post_word().len() == 4);
            assert(w.len() == end - start);
            assert(post_word()[0] == 'p' && post_word()[1] == 'o' && post_word()[2] == 's' && post_word()[3] == 't');
            assert(w[0] == v@[start as int] && w[1] == v@[start + 1] && w[2] == v@[start + 2] && w[3] == v@[start + 3]);
        }
    }
    r
}

fn is_join(v: &Vec<char>, start: usize, end: usize) -> (r: bool)
    requires
        start <= end <= v.len(),
    ensures
        r == (v@.subrange(start as int, end as int) == join_word()),
{
    let r = end - start == 4 && v[start] == 'j' && v[start + 1] == 'o' && v[start + 2] == 'i'
        && v[start + 3] == 'n';
    proof {
        let w = v@.subrange(start as int, end as int);
        if r {
            assert(w =~= join_word());
        } else if w == join_word() {
            assert(join_word().len() == 4);
            assert(w.len() == end - start);
            assert(join_word()[0] == 'j' && join_word()[1] == 'o' && join_word()[2] == 'i' && join_word()[3] == 'n');
            assert(w[0] == v@[start as int] && w[1] == v@[start + 1] && w[2] == v@[start + 2] && w[3] == v@[start + 3]);
        }
    }
    r
}

/// Reads one line of input as a command.
pub fn read_command(line: &str) -> (r: Result<OutboundRequest, Rejection>)
    ensures
        match r {
            Ok(request) => command_of(line@) == Ok::<Request, Rejection>(request@),
            Err(rejection) => command_of(line@) == Err::<Request, Rejection>(rejection),
        },
{
    let v = chars_of(line);
    assert(v@.skip(0) =~= v@);
    let (start, end) = match token_at(&v, 0) {
        None => { return Err(Rejection::Blank); },
        Some(found) => found,
    };
    let post = is_post(&v, start, end);
    let join = is_join(&v, start, end);
    if !post && !join {
        return Err(Rejection::UnknownCommand);
    }
    let (group_start, group_end) = match token_at(&v, end) {
        None => { return Err(Rejection::MissingGroup); },
        Some(found) => found,
    };
    let tail = whitespace_end(&v, group_end);
    assert(trim_start(v@.skip(group_end as int)) =~= v@.subrange(tail as int, v@.len() as int));
    let group_name = string_of(&v, group_start, group_end);
    if post {
        Ok(OutboundRequest::Post { group_name, message: string_of(&v, tail, v.len()) })
    } else if tail == v.len() {
        Ok(OutboundRequest::Join { group_name })
    } else {
        Err(Rejection::TrailingText)
    }
}

/// The request that a line of input asks for, or `None` where the line is
/// rejected.
pub fn parse_command(line: &str) -> (r: Option<OutboundRequest>)
    ensures
        match r {
            Some(request) => command_of(line@) == Ok::<Request, Rejection>(request@),
            None => command_of(line@) is Err,
        },
{
    match read_command(line) {
        Ok(request) => Some(request),
        Err(_) => None,
    }
}

} // verus!
