use vstd::prelude::*;

use crate::text::{
    words,
    trim,
    chars_of,
    trim_chars,
    words_of,
    same_chars,
    string_of,
    views,
    is_white_space,
    lemma_words_append_word,
    lemma_words_append_space,
    lemma_trim_unchanged,
};

verus! {

/// What a line typed at the prompt asks for.
#[derive(Debug, PartialEq, Eq)]
pub enum Command {
    /// `add NAME`: add a contact named `NAME`.
    Add(String),
    /// `add` without exactly one name.
    AddWithoutName,
    /// `remove NAME`: remove the contact named `NAME`.
    Remove(String),
    /// `remove` without exactly one name.
    RemoveWithoutName,
    /// `list`: show the contacts.
    List,
    /// `exit`: leave.
    Exit,
    /// Any other first word.
    Unknown,
    /// A blank line: nothing to do.
    Nothing,
}

/// The command that a line asks for: its words, after leading and trailing
/// white space is removed, are read by the first one.
pub open spec fn command_matches(line: Seq<char>, r: Command) -> bool {
    let ws = words(trim(line));
    if trim(line).len() == 0 || ws.len() == 0 || (exists|i: int|
        0 <= i < ws.len() && #[trigger] ws[i].len() == 0) {
        r is Nothing
    } else if ws[0] == seq!['a', 'd', 'd'] {
        if ws.len() != 2 || trim(ws[1]).len() == 0 {
            r is AddWithoutName
        } else {
            r matches Command::Add(n) && n@ == ws[1]
        }
    } else if ws[0] == seq!['r', 'e', 'm', 'o', 'v', 'e'] {
        if ws.len() != 2 || trim(ws[1]).len() == 0 {
            r is RemoveWithoutName
        } else {
            r matches Command::Remove(n) && n@ == ws[1]
        }
    } else if ws[0] == seq!['l', 'i', 's', 't'] {
        r is List
    } else if ws[0] == seq!['e', 'x', 'i', 't'] {
        r is Exit
    } else {
        r is Unknown
    }
}

/// Reads the command that a line typed at the prompt asks for.
pub fn parse_command(line: &str) -> (r: Command)
    ensures
        command_matches(line@, r),
{
    let chars = chars_of(line);
    let trimmed = trim_chars(chars.as_slice());
    if trimmed.len() == 0 {
        return Command::Nothing;
    }
    let ws = words_of(trimmed.as_slice());
    let n = ws.len();
    if n == 0 {
        return Command::Nothing;
    }
    proof {
        assert(forall|i: int| 0 <= i < n ==> views(ws@)[i] == #[trigger] ws@[i]@);
    }
    for i in 0..n
        invariant
            n == ws@.len(),
            views(ws@) == words(trim(line@)),
            forall|k: int| 0 <= k < n ==> views(ws@)[k] == #[trigger] ws@[k]@,
            forall|j: int| 0 <= j < i ==> #[trigger] ws@[j]@.len() > 0,
    {
        if ws[i].len() == 0 {
            assert(words(trim(line@))[i as int].len() == 0);
            return Command::Nothing;
        }
    }
    let first = ws[0].as_slice();
    let add = ['a', 'd', 'd'];
    let remove = ['r', 'e', 'm', 'o', 'v', 'e'];
    let list = ['l', 'i', 's', 't'];
    let exit = ['e', 'x', 'i', 't'];
    proof {
        assert(add@ =~= seq!['a', 'd', 'd']);
        assert(remove@ =~= seq!['r', 'e', 'm', 'o', 'v', 'e']);
        assert(list@ =~= seq!['l', 'i', 's', 't']);
        assert(exit@ =~= seq!['e', 'x', 'i', 't']);
    }
    if same_chars(first, add.as_slice()) {
        if n != 2 || trim_chars(ws[1].as_slice()).len() == 0 {
            Command::AddWithoutName
        } else {
            Command::Add(string_of(ws[1].as_slice()))
        }
    } else if same_chars(first, remove.as_slice()) {
        if n != 2 || trim_chars(ws[1].as_slice()).len() == 0 {
            Command::RemoveWithoutName
        } else {
            Command::Remove(string_of(ws[1].as_slice()))
        }
    } else if same_chars(first, list.as_slice()) {
        Command::List
    } else if same_chars(first, exit.as_slice()) {
        Command::Exit
    } else {
        Command::Unknown
    }
}

/// The words of a keyword, a space and a name: the keyword, then the name,
/// whole.
proof fn lemma_keyword_and_name(k: Seq<char>, w: Seq<char>)
    requires
        k.len() > 0,
        forall|i: int| 0 <= i < k.len() ==> !is_white_space(#[trigger] k[i]),
        w.len() > 0,
        forall|i: int| 0 <= i < w.len() ==> !is_white_space(#[trigger] w[i]),
    ensures
        trim(k + seq![' '] + w) == k + seq![' '] + w,
        words(k + seq![' '] + w) == seq![k, w],
        trim(w) == w,
{
    let line = k + seq![' '] + w;
    lemma_words_append_word(Seq::empty(), k);
    assert(Seq::<char>::empty() + k =~= k);
    assert(words(Seq::<char>::empty()) =~= Seq::<Seq<char>>::empty());
    lemma_words_append_space(k, ' ');
    assert(k + seq![' '] =~= k.push(' '));
    lemma_words_append_word(k + seq![' '], w);
    assert(seq![k] =~= Seq::<Seq<char>>::empty().push(k));
    assert(words(line) =~= seq![k, w]);
    assert(line[0] == k[0]);
    assert(line.last() == w.last());
    assert(!is_white_space(w[w.len() - 1]));
    lemma_trim_unchanged(line);
    lemma_trim_unchanged(w);
}

/// `add NAME`, for a name with no white space in it, asks to add a contact
/// named by the whole name.
pub proof fn law_add_takes_the_whole_name(w: Seq<char>, r: Command)
    requires
        w.len() > 0,
        forall|i: int| 0 <= i < w.len() ==> !is_white_space(#[trigger] w[i]),
        command_matches(seq!['a', 'd', 'd', ' '] + w, r),
    ensures
        r matches Command::Add(n) && n@ == w,
{
    let k = seq!['a', 'd', 'd'];
    assert(seq!['a', 'd', 'd', ' '] =~= k + seq![' ']);
    lemma_keyword_and_name(k, w);
    let ws = words(k + seq![' '] + w);
    assert(ws[0].len() > 0 && ws[1].len() > 0);
}

/// `remove NAME`, for a name with no white space in it, asks to remove the
/// contact named by the whole name.
pub proof fn law_remove_takes_the_whole_name(w: Seq<char>, r: Command)
    requires
        w.len() > 0,
        forall|i: int| 0 <= i < w.len() ==> !is_white_space(#[trigger] w[i]),
        command_matches(seq!['r', 'e', 'm', 'o', 'v', 'e', ' '] + w, r),
    ensures
        r matches Command::Remove(n) && n@ == w,
{
    let k = seq!['r', 'e', 'm', 'o', 'v', 'e'];
    assert(seq!['r', 'e', 'm', 'o', 'v', 'e', ' '] =~= k + seq![' ']);
    lemma_keyword_and_name(k, w);
    let ws = words(k + seq![' '] + w);
    assert(ws[0].len() > 0 && ws[1].len() > 0);
}

} // verus!
