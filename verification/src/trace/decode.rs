//! Turning the registers of a stop into the text of a trace line.

use vstd::prelude::*;
use vstd::string::*;
use crate::text::{decimal, hexadecimal, render_decimal, render_hex, render_unsigned, str_eq};
use crate::trace::error::{read_text, ReadError};
use crate::trace::registers::RegisterSnapshot;
use crate::trace::syscalls::{known_syscall, syscall_name, table_entry};

verus! {

/// Results above this bound are shown in hexadecimal, the others in decimal.
///
/// This is a rule of thumb for the display: large values are mostly
/// addresses, small and negative ones counts, descriptors and error codes.
/// It says nothing about what a call really returned.
pub const ADDRESS_LOWER_BOUND: i64 = 10000;

/// What stands between the brackets when a path could not be read.
pub open spec fn unreadable_mark() -> Seq<char> {
    seq!['<', 'u', 'n', 'r', 'e', 'a', 'd', 'a', 'b', 'l', 'e', '>']
}

/// The prefix of the name given to a number that the table does not hold.
pub open spec fn unnamed_prefix() -> Seq<char> {
    seq!['s', 'y', 's', 'c', 'a', 'l', 'l', '_']
}

/// The name under which a call is shown: the table's name, or `syscall_`
/// and the number where the table has none.
pub open spec fn syscall_label(number: u64) -> Seq<char> {
    if known_syscall(number) {
        table_entry(number)@
    } else {
        unnamed_prefix() + decimal(number as int)
    }
}

/// Whether the first argument of the call named `name` is a path.
pub open spec fn takes_path(name: Seq<char>) -> bool {
    ||| name == seq!['o', 'p', 'e', 'n']
    ||| name == seq!['e', 'x', 'e', 'c', 'v', 'e']
    ||| name == seq!['a', 'c', 'c', 'e', 's', 's']
    ||| name == seq!['s', 't', 'a', 't']
    ||| name == seq!['l', 's', 't', 'a', 't']
    ||| name == seq!['c', 'h', 'd', 'i', 'r']
}

/// The text of a string read from a process, where a read was made.
pub open spec fn optional_read_text(read: Option<&Result<String, ReadError>>) -> Option<
    Result<Seq<char>, ReadError>,
> {
    match read {
        Some(r) => Some(read_text(*r)),
        None => None,
    }
}

/// How a path argument is shown: in double quotes where it was read, as
/// the mark for an unreadable one where it was not.
pub open spec fn shown_path(read: Option<Result<Seq<char>, ReadError>>) -> Seq<char> {
    match read {
        Some(Ok(path)) => seq!['"'] + path + seq!['"'],
        _ => unreadable_mark(),
    }
}

/// The fragment that opens a trace line: the call's name and, in
/// brackets, its path argument if it takes one.
pub open spec fn entry_fragment(name: Seq<char>, read: Option<Result<Seq<char>, ReadError>>) -> Seq<
    char,
> {
    if takes_path(name) {
        name + seq!['('] + shown_path(read) + seq![')']
    } else {
        name + seq!['(', ')']
    }
}

/// The fragment that closes a trace line: the call's result.
pub open spec fn exit_fragment(value: i64) -> Seq<char> {
    if value > ADDRESS_LOWER_BOUND {
        hexadecimal(value as nat)
    } else {
        decimal(value as int)
    }
}

/// The name under which the call numbered `number` is shown.
pub fn label(number: u64) -> (name: String)
    ensures
        name@ == syscall_label(number),
{
    match syscall_name(number) {
        Some(entry) => String::from_str(entry),
        None => {
            proof {
                reveal_strlit("syscall_");
                assert("syscall_"@ =~= unnamed_prefix());
            }
            let mut name = String::from_str("syscall_");
            let digits = render_unsigned(number);
            name.append(digits.as_str());
            name
        },
    }
}

/// Whether the first argument of the call named `name` is a path.
pub fn names_path(name: &str) -> (yes: bool)
    ensures
        yes == takes_path(name@),
{
    proof {
        reveal_strlit("open");
        reveal_strlit("execve");
        reveal_strlit("access");
        reveal_strlit("stat");
        reveal_strlit("lstat");
        reveal_strlit("chdir");
        assert("open"@ =~= seq!['o', 'p', 'e', 'n']);
        assert("execve"@ =~= seq!['e', 'x', 'e', 'c', 'v', 'e']);
        assert("access"@ =~= seq!['a', 'c', 'c', 'e', 's', 's']);
        assert("stat"@ =~= seq!['s', 't', 'a', 't']);
        assert("lstat"@ =~= seq!['l', 's', 't', 'a', 't']);
        assert("chdir"@ =~= seq!['c', 'h', 'd', 'i', 'r']);
    }
    str_eq(name, "open") || str_eq(name, "execve") || str_eq(name, "access") || str_eq(
        name,
        "stat",
    ) || str_eq(name, "lstat") || str_eq(name, "chdir")
}

/// The entry fragment of the call named `name`. `read` is what came of
/// reading its path argument; it is looked at only where the call takes
/// a path, and a path that was not read is shown as unreadable.
pub fn entry_text(name: &str, read: Option<&Result<String, ReadError>>) -> (fragment: String)
    ensures
        fragment@ == entry_fragment(name@, optional_read_text(read)),
{
    let mut fragment = String::from_str(name);
    if names_path(name) {
        proof {
            reveal_strlit("(");
            reveal_strlit(")");
            reveal_strlit("\"");
            reveal_strlit("<unreadable>");
            assert("<unreadable>"@ =~= unreadable_mark());
        }
        fragment.append("(");
        match read {
            Some(Ok(path)) => {
                fragment.append("\"");
                fragment.append(path.as_str());
                fragment.append("\"");
                assert(fragment@ =~= name@ + seq!['('] + shown_path(optional_read_text(read)));
            },
            _ => {
                fragment.append("<unreadable>");
            },
        }
        fragment.append(")");
    } else {
        proof {
            reveal_strlit("()");
            assert("()"@ =~= seq!['(', ')']);
        }
        fragment.append("()");
    }
    fragment
}

/// Decodes the stop at the entry of a call: the call's name from its
/// number and, for a call that takes a path, the path that `read` holds.
pub fn trace_prehook(regs: &RegisterSnapshot, read: Option<&Result<String, ReadError>>) -> (fragment:
    String)
    ensures
        fragment@ == entry_fragment(
            syscall_label(regs.syscall_number),
            optional_read_text(read),
        ),
{
    let name = label(regs.syscall_number);
    entry_text(name.as_str(), read)
}

/// Decodes the stop at the exit of a call: the result in decimal, or in
/// hexadecimal above [`ADDRESS_LOWER_BOUND`].
pub fn trace_posthook(regs: &RegisterSnapshot) -> (fragment: String)
    ensures
        fragment@ == exit_fragment(regs.return_value),
{
    let value = regs.return_value;
    if value > ADDRESS_LOWER_BOUND {
        render_hex(value as u64)
    } else {
        render_decimal(value)
    }
}

} // verus!
