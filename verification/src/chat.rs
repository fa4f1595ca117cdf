//! Chat lines: plain speech, and the commands that start with a slash.

use vstd::prelude::*;
use vstd::string::*;

verus! {

/// What a chat line asks for.
#[derive(Debug)]
pub enum ChatCommand {
    /// Plain speech, to be passed on.
    Say,
    /// Take the speaker to the player of this name.
    Teleport(String),
    /// A command that is not known, or lacks what it needs.
    Invalid,
}

/// What a chat line asks for, as mathematical values.
pub enum ChatCommandView {
    Say,
    Teleport(Seq<char>),
    Invalid,
}

impl View for ChatCommand {
    type V = ChatCommandView;

    open spec fn view(&self) -> ChatCommandView {
        match *self {
            ChatCommand::Say => ChatCommandView::Say,
            ChatCommand::Teleport(name) => ChatCommandView::Teleport(name@),
            ChatCommand::Invalid => ChatCommandView::Invalid,
        }
    }
}

/// The place of the first space of `line` at or after `from`; the length of
/// `line` where there is none.
pub open spec fn word_end(line: Seq<char>, from: int) -> int
    decreases line.len() - from,
{
    if from >= line.len() {
        line.len() as int
    } else if line[from] == ' ' {
        from
    } else {
        word_end(line, from + 1)
    }
}

/// The name of the teleport command.
pub open spec fn teleport_word() -> Seq<char> {
    seq!['/', 't', 'p']
}

/// What the chat line `line` asks for. A line that starts with a slash is a
/// command, and is taken apart at its spaces: where its first word is `/tp`
/// and a second word follows, it asks to be taken to the player whose name
/// is the second word. Any other command is invalid.
pub open spec fn command_of(line: Seq<char>) -> ChatCommandView {
    if line.len() == 0 || line[0] != '/' {
        ChatCommandView::Say
    } else {
        let end = word_end(line, 0);
        if line.subrange(0, end) == teleport_word() && end < line.len() {
            ChatCommandView::Teleport(line.subrange(end + 1, word_end(line, end + 1)))
        } else {
            ChatCommandView::Invalid
        }
    }
}

proof fn lemma_word_end_bounds(line: Seq<char>, from: int)
    requires
        0 <= from <= line.len(),
    ensures
        from <= word_end(line, from) <= line.len(),
    decreases line.len() - from,
{
    if from < line.len() && line[from] != ' ' {
        lemma_word_end_bounds(line, from + 1);
    }
}

/// The characters of `text`.
fn chars_of(text: &str) -> (chars: Vec<char>)
    ensures
        chars@ == text@,
{
    broadcast use vstd::string::group_string_axioms;

    let mut chars: Vec<char> = Vec::new();
    for c in rest: text.chars()
        invariant
            rest.seq() == text@,
            chars@ == rest.seq().take(rest.index()),
    {
        chars.push(c);
        assert(rest.seq().take(rest.index() + 1) =~= rest.seq().take(rest.index()).push(c));
    }
    assert(text@.take(text@.len() as int) =~= text@);
    chars
}

/// The place of the first space of `line` at or after `from`.
fn find_word_end(line: &Vec<char>, from: usize) -> (end: usize)
    requires
        from <= line.len(),
    ensures
        end == word_end(line@, from as int),
        from <= end <= line.len(),
{
    let mut i: usize = from;
    while i < line.len() && line[i] != ' '
        invariant
            from <= i <= line.len(),
            word_end(line@, from as int) == word_end(line@, i as int),
        decreases line.len() - i,
    {
        i = i + 1;
    }
    i
}

/// What the chat line `line` asks for.
pub fn parse_chat(line: &String) -> (command: ChatCommand)
    ensures
        command@ == command_of(line@),
{
    let chars = chars_of(line.as_str());
    if chars.len() == 0 || chars[0] != '/' {
        return ChatCommand::Say;
    }
    let end: usize = find_word_end(&chars, 0);
    if end == 3 && chars[1] == 't' && chars[2] == 'p' && end < chars.len() {
        assert(chars@.subrange(0, 3) =~= teleport_word());
        let name_end: usize = find_word_end(&chars, end + 1);
        let name = line.as_str().substring_char(end + 1, name_end);
        ChatCommand::Teleport(String::from_str(name))
    } else {
        proof {
            if chars@.subrange(0, end as int) == teleport_word() {
                assert(teleport_word().len() == 3);
                assert(chars@.subrange(0, end as int)[1] == 't');
                assert(chars@.subrange(0, end as int)[2] == 'p');
            }
        }
        ChatCommand::Invalid
    }
}

} // verus!
