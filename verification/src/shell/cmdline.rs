//! Command lines: their words, the redirection, the command and its arguments.

use vstd::prelude::*;
use vstd::string::*;
use crate::text::{str_eq, texts};

verus! {

/// The words of `s` that are complete, and the word that is still open at
/// its end. A word is a run of characters other than the space; a space
/// ends the word before it.
pub open spec fn scanned(s: Seq<char>) -> (Seq<Seq<char>>, Seq<char>)
    decreases s.len(),
{
    if s.len() == 0 {
        (Seq::empty(), Seq::empty())
    } else {
        let (complete, open) = scanned(s.drop_last());
        if s.last() != ' ' {
            (complete, open.push(s.last()))
        } else if open.len() > 0 {
            (complete.push(open), Seq::empty())
        } else {
            (complete, Seq::empty())
        }
    }
}

/// The words of `s`: its runs of characters other than the space, each as
/// long as it can be, in order.
pub open spec fn words_of(s: Seq<char>) -> Seq<Seq<char>> {
    let (complete, open) = scanned(s);
    if open.len() > 0 {
        complete.push(open)
    } else {
        complete
    }
}

/// Splits `line` into its words.
pub fn split_words(line: &str) -> (words: Vec<String>)
    ensures
        texts(words@) == words_of(line@),
{
    let mut words: Vec<String> = Vec::new();
    let mut open = String::new();
    proof {
        assert(texts(words@) =~= Seq::<Seq<char>>::empty());
    }
    for c in it: line.chars()
        invariant
            it.seq() == line@,
            scanned(line@.take(it.index() as int)) == (texts(words@), open@),
    {
        let ghost before = texts(words@);
        proof {
            assert(line@.take(it.index() + 1).drop_last() =~= line@.take(it.index() as int));
            assert(line@.take(it.index() + 1).last() == c);
        }
        if c != ' ' {
            open.push(c);
        } else if !open.as_str().is_empty() {
            words.push(open);
            open = String::new();
            proof {
                assert(texts(words@) =~= before.push(words@[words@.len() - 1]@));
            }
        }
    }
    proof {
        assert(line@.take(line@.len() as int) =~= line@);
    }
    if !open.as_str().is_empty() {
        let ghost before = texts(words@);
        words.push(open);
        proof {
            assert(texts(words@) =~= before.push(words@[words@.len() - 1]@));
        }
    }
    words
}

/// A command line taken apart.
#[derive(Clone, Debug, PartialEq, Eq)]
pub struct CommandLine {
    /// The command: the first word that is left when the redirection is
    /// taken out; `None` where no word is left.
    pub command: Option<String>,
    /// The words after the command; `None` where there is no command.
    pub args: Option<Vec<String>>,
    /// The file to which output is redirected, if it is.
    pub redir_fp: Option<String>,
}

/// Why a command line could not be taken apart; the field is the message.
#[derive(Clone, Debug, PartialEq, Eq)]
pub struct ParseError(pub String);

/// A command line taken apart, as plain values.
pub struct CommandModel {
    pub command: Option<Seq<char>>,
    pub args: Option<Seq<Seq<char>>>,
    pub redir_fp: Option<Seq<char>>,
}

impl View for CommandLine {
    type V = CommandModel;

    open spec fn view(&self) -> CommandModel {
        CommandModel {
            command: match self.command {
                Some(c) => Some(c@),
                None => None,
            },
            args: match self.args {
                Some(a) => Some(texts(a@)),
                None => None,
            },
            redir_fp: match self.redir_fp {
                Some(f) => Some(f@),
                None => None,
            },
        }
    }
}

/// The word that redirects output.
pub open spec fn redirect_mark() -> Seq<char> {
    seq!['>']
}

/// The message for a redirection without a file.
pub open spec fn missing_target_message() -> Seq<char> {
    seq![
        'E', 'r', 'r', 'o', 'r', ':', ' ', 'p', 'a', 'r', 's', 'e', ' ', 'e', 'r', 'r', 'o', 'r',
        ' ', 'n', 'e', 'a', 'r', ' ', '\\', 'n',
    ]
}

/// The place of the first word that is the redirection mark, or the
/// number of words where none is.
pub open spec fn first_redirect(words: Seq<Seq<char>>) -> int
    decreases words.len(),
{
    if words.len() == 0 || words[0] == redirect_mark() {
        0
    } else {
        1 + first_redirect(words.drop_first())
    }
}

/// The command line whose words, the redirection taken out, are `words`
/// and whose output goes to `redir_fp`.
pub open spec fn command_of(words: Seq<Seq<char>>, redir_fp: Option<Seq<char>>) -> CommandModel {
    if words.len() == 0 {
        CommandModel { command: None, args: None, redir_fp }
    } else {
        CommandModel { command: Some(words[0]), args: Some(words.skip(1)), redir_fp }
    }
}

/// What the words of a command line say. The first `>` among them
/// redirects output to the file named by the word after it, and both
/// words are taken out; without a word after it the line is in error. Of
/// the words that are left the first is the command and the others are
/// its arguments.
pub open spec fn parsed(words: Seq<Seq<char>>) -> Result<CommandModel, Seq<char>> {
    let at = first_redirect(words);
    if at >= words.len() {
        Ok(command_of(words, None))
    } else if at + 1 < words.len() {
        Ok(command_of(words.remove(at + 1).remove(at), Some(words[at + 1])))
    } else {
        Err(missing_target_message())
    }
}

/// The result of parsing, as plain values.
pub open spec fn parse_view(r: Result<CommandLine, ParseError>) -> Result<CommandModel, Seq<char>> {
    match r {
        Ok(c) => Ok(c@),
        Err(e) => Err(e.0@),
    }
}

fn find_redirect(words: &Vec<String>) -> (at: usize)
    ensures
        at == first_redirect(texts(words@)),
        at <= words@.len(),
{
    let ghost all = texts(words@);
    let mut i: usize = 0;
    proof {
        reveal_strlit(">");
        assert(">"@ =~= redirect_mark());
        assert(all.skip(0) =~= all);
    }
    while i < words.len()
        invariant
            i <= words.len(),
            all == texts(words@),
            ">"@ == redirect_mark(),
            first_redirect(all) == i + first_redirect(all.skip(i as int)),
        decreases words.len() - i,
    {
        proof {
            assert(all.skip(i as int)[0] == words@[i as int]@);
            assert(all.skip(i as int).drop_first() =~= all.skip(i + 1));
        }
        if str_eq(words[i].as_str(), ">") {
            return i;
        }
        i += 1;
    }
    i
}

/// Takes a command line apart: see [`parsed`].
pub fn parse_cmdline(cmd: String) -> (result: Result<CommandLine, ParseError>)
    ensures
        parse_view(result) == parsed(words_of(cmd@)),
{
    let mut tokens = split_words(cmd.as_str());
    let ghost words = texts(tokens@);
    let at = find_redirect(&tokens);
    let mut redir_fp: Option<String> = None;
    if at < tokens.len() {
        if at + 1 < tokens.len() {
            let target = tokens.remove(at + 1);
            let _mark = tokens.remove(at);
            redir_fp = Some(target);
            proof {
                assert(texts(tokens@) =~= words.remove(at + 1).remove(at as int));
            }
        } else {
            proof {
                reveal_strlit("Error: parse error near \\n");
                assert("Error: parse error near \\n"@ =~= missing_target_message());
            }
            return Err(ParseError(String::from_str("Error: parse error near \\n")));
        }
    }
    let ghost left = texts(tokens@);
    if tokens.len() == 0 {
        Ok(CommandLine { command: None, args: None, redir_fp })
    } else {
        let command = tokens.remove(0);
        proof {
            assert(texts(tokens@) =~= left.skip(1));
        }
        Ok(CommandLine { command: Some(command), args: Some(tokens), redir_fp })
    }
}

impl CommandLine {
    /// The argument vector for running the command: the command, then its
    /// arguments. There must be a command.
    pub fn argv(&self) -> (argv: Vec<String>)
        requires
            self.command is Some,
            self.args is Some,
        ensures
            texts(argv@) == seq![self.command->Some_0@] + texts(self.args->Some_0@),
    {
        let mut argv: Vec<String> = Vec::new();
        match (&self.command, &self.args) {
            (Some(command), Some(args)) => {
                argv.push(command.clone());
                let mut i: usize = 0;
                while i < args.len()
                    invariant
                        i <= args.len(),
                        argv@.len() == i + 1,
                        argv@[0]@ == command@,
                        forall|j: int| 0 <= j < i ==> argv@[j + 1]@ == args@[j]@,
                    decreases args.len() - i,
                {
                    argv.push(args[i].clone());
                    i += 1;
                }
                assert(texts(argv@) =~= seq![command@] + texts(args@));
            },
            _ => {},
        }
        argv
    }

    /// Whether the command is one of the two that leave the shell,
    /// `quit` and `exit`.
    pub fn leaves_shell(&self) -> (leaves: bool)
        ensures
            leaves == (self@.command == Some(seq!['q', 'u', 'i', 't']) || self@.command == Some(
                seq!['e', 'x', 'i', 't'],
            )),
    {
        proof {
            reveal_strlit("quit");
            reveal_strlit("exit");
            assert("quit"@ =~= seq!['q', 'u', 'i', 't']);
            assert("exit"@ =~= seq!['e', 'x', 'i', 't']);
        }
        match &self.command {
            Some(command) => str_eq(command.as_str(), "quit") || str_eq(
                command.as_str(),
                "exit",
            ),
            None => false,
        }
    }
}

} // verus!
