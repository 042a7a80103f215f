//! Checks on a one-shot command and its arguments before it is run: no shell
//! syntax, no option or path tricks, and bounded sizes.
//!
//! The checks read the UTF-8 bytes of the text. Every character they look for
//! is ASCII, and an ASCII byte occurs in UTF-8 only as that character.

use vstd::prelude::*;
use vstd::string::StringSliceAdditionalSpecFns;
use vstd::utf8::encode_utf8;
use crate::text::{decimal, push_decimal};

verus! {

/// Longest command accepted, in bytes.
pub const MAX_COMMAND_LENGTH: usize = 4096;

/// Longest argument accepted, in bytes.
pub const MAX_ARG_LENGTH: usize = 4096;

/// Most arguments accepted.
pub const MAX_ARGS_COUNT: usize = 100;

/// How many characters a command may not contain.
pub const FORBIDDEN_COUNT: usize = 19;

/// The `i`th character that a command may not contain, as a byte, and as the
/// message shows it (control characters escaped).
pub open spec fn forbidden(i: int) -> (u8, Seq<char>) {
    if i == 0 {
        (59u8, ";"@)
    } else if i == 1 {
        (38u8, "&"@)
    } else if i == 2 {
        (124u8, "|"@)
    } else if i == 3 {
        (36u8, "$"@)
    } else if i == 4 {
        (96u8, "`"@)
    } else if i == 5 {
        (40u8, "("@)
    } else if i == 6 {
        (41u8, ")"@)
    } else if i == 7 {
        (123u8, "{"@)
    } else if i == 8 {
        (125u8, "}"@)
    } else if i == 9 {
        (91u8, "["@)
    } else if i == 10 {
        (93u8, "]"@)
    } else if i == 11 {
        (60u8, "<"@)
    } else if i == 12 {
        (62u8, ">"@)
    } else if i == 13 {
        (10u8, "\\n"@)
    } else if i == 14 {
        (13u8, "\\r"@)
    } else if i == 15 {
        (0u8, "\\0"@)
    } else if i == 16 {
        (39u8, "'"@)
    } else if i == 17 {
        (34u8, "\""@)
    } else {
        (92u8, "\\"@)
    }
}

/// The first character of the list, in its order, that occurs in the command.
pub open spec fn first_forbidden_from(b: Seq<u8>, i: int) -> Option<int>
    decreases FORBIDDEN_COUNT - i,
{
    if i < 0 || i >= FORBIDDEN_COUNT {
        None
    } else if b.contains(forbidden(i).0) {
        Some(i)
    } else {
        first_forbidden_from(b, i + 1)
    }
}

/// Whether two dots stand next to each other.
pub open spec fn has_dot_dot(b: Seq<u8>) -> bool {
    exists|i: int| 0 <= i && i + 1 < b.len() && b[i] == 46u8 && #[trigger] b[i + 1] == 46u8
}

/// What `validate_command` owes for a command of these bytes.
pub open spec fn command_verdict(b: Seq<u8>) -> Result<(), Seq<char>> {
    if b.len() == 0 {
        Err("Command cannot be empty"@)
    } else if b.len() > MAX_COMMAND_LENGTH {
        Err("Command too long: "@ + decimal(b.len()) + " chars (max "@ + decimal(
            MAX_COMMAND_LENGTH as nat,
        ) + ")"@)
    } else if first_forbidden_from(b, 0) is Some {
        Err("Command contains forbidden character '"@ + forbidden(
            first_forbidden_from(b, 0)->0,
        ).1 + "'. Use proper arguments instead of shell syntax."@)
    } else if b[0] == 45u8 {
        Err("Command cannot start with '-'"@)
    } else if has_dot_dot(b) {
        Err("Command cannot contain '..' path traversal"@)
    } else {
        Ok(())
    }
}

/// The first problem with the argument at `i`, if it has one.
pub open spec fn arg_problem(b: Seq<u8>, i: nat) -> Option<Seq<char>> {
    if b.len() > MAX_ARG_LENGTH {
        Some("Argument "@ + decimal(i) + " too long: "@ + decimal(b.len()) + " chars (max "@
            + decimal(MAX_ARG_LENGTH as nat) + ")"@)
    } else if b.contains(0u8) {
        Some("Argument "@ + decimal(i) + " contains null byte"@)
    } else {
        None
    }
}

/// The first problem among the arguments from index `i` on.
pub open spec fn args_problem_from(args: Seq<Seq<u8>>, i: int) -> Option<Seq<char>>
    decreases args.len() - i,
{
    if i < 0 || i >= args.len() {
        None
    } else if arg_problem(args[i], i as nat) is Some {
        arg_problem(args[i], i as nat)
    } else {
        args_problem_from(args, i + 1)
    }
}

/// The bytes of each argument.
pub open spec fn args_bytes(args: Seq<String>) -> Seq<Seq<u8>> {
    args.map_values(|a: String| encode_utf8(a@))
}

/// What `validate_args` owes for these arguments.
pub open spec fn args_verdict(args: Seq<Seq<u8>>) -> Result<(), Seq<char>> {
    if args.len() > MAX_ARGS_COUNT {
        Err("Too many arguments: "@ + decimal(args.len()) + " (max "@ + decimal(
            MAX_ARGS_COUNT as nat,
        ) + ")"@)
    } else {
        match args_problem_from(args, 0) {
            Some(m) => Err(m),
            None => Ok(()),
        }
    }
}

fn forbidden_entry(i: usize) -> (r: (u8, &'static str))
    requires
        i < FORBIDDEN_COUNT,
    ensures
        r.0 == forbidden(i as int).0,
        r.1@ == forbidden(i as int).1,
{
    if i == 0 {
        (59u8, ";")
    } else if i == 1 {
        (38u8, "&")
    } else if i == 2 {
        (124u8, "|")
    } else if i == 3 {
        (36u8, "$")
    } else if i == 4 {
        (96u8, "`")
    } else if i == 5 {
        (40u8, "(")
    } else if i == 6 {
        (41u8, ")")
    } else if i == 7 {
        (123u8, "{")
    } else if i == 8 {
        (125u8, "}")
    } else if i == 9 {
        (91u8, "[")
    } else if i == 10 {
        (93u8, "]")
    } else if i == 11 {
        (60u8, "<")
    } else if i == 12 {
        (62u8, ">")
    } else if i == 13 {
        (10u8, "\\n")
    } else if i == 14 {
        (13u8, "\\r")
    } else if i == 15 {
        (0u8, "\\0")
    } else if i == 16 {
        (39u8, "'")
    } else if i == 17 {
        (34u8, "\"")
    } else {
        (92u8, "\\")
    }
}

fn contains_byte(b: &[u8], x: u8) -> (r: bool)
    ensures
        r == b@.contains(x),
{
    let mut i: usize = 0;
    while i < b.len()
        invariant
            i <= b@.len(),
            forall|j: int| 0 <= j < i ==> b@[j] != x,
        decreases b@.len() - i,
    {
        if b[i] == x {
            return true;
        }
        i = i + 1;
    }
    false
}

fn contains_dot_dot(b: &[u8]) -> (r: bool)
    ensures
        r == has_dot_dot(b@),
{
    let mut i: usize = 0;
    while i < b.len() && b.len() - i >= 2
        invariant
            i <= b@.len(),
            forall|j: int| 0 <= j < i && j + 1 < b@.len() ==> !(b@[j] == 46u8 && #[trigger] b@[j + 1] == 46u8),
        decreases b@.len() - i,
    {
        if b[i] == 46u8 && b[i + 1] == 46u8 {
            return true;
        }
        i = i + 1;
    }
    false
}

/// Checks a command name: not empty, not too long, free of shell syntax, not
/// an option, and without `..`.
pub fn validate_command(cmd: &str) -> (r: Result<(), String>)
    ensures
        match (r, command_verdict(cmd.spec_bytes())) {
            (Ok(()), Ok(())) => true,
            (Err(e), Err(m)) => e@ == m,
            _ => false,
        },
{
    let b = cmd.as_bytes();
    if b.len() == 0 {
        return Err(String::from_str("Command cannot be empty"));
    }
    if b.len() > MAX_COMMAND_LENGTH {
        let mut s = String::from_str("Command too long: ");
        push_decimal(&mut s, b.len() as u64);
        s.append(" chars (max ");
        push_decimal(&mut s, MAX_COMMAND_LENGTH as u64);
        s.append(")");
        return Err(s);
    }
    let mut i: usize = 0;
    while i < FORBIDDEN_COUNT
        invariant
            i <= FORBIDDEN_COUNT,
            b@ == cmd.spec_bytes(),
            0 < b@.len() <= MAX_COMMAND_LENGTH,
            first_forbidden_from(b@, 0) == first_forbidden_from(b@, i as int),
        decreases FORBIDDEN_COUNT - i,
    {
        let (c, shown) = forbidden_entry(i);
        if contains_byte(b, c) {
            assert(first_forbidden_from(b@, i as int) == Some(i as int));
            let mut s = String::from_str("Command contains forbidden character '");
            s.append(shown);
            s.append("'. Use proper arguments instead of shell syntax.");
            return Err(s);
        }
        i = i + 1;
    }
    assert(first_forbidden_from(b@, FORBIDDEN_COUNT as int) is None);
    if b[0] == 45u8 {
        return Err(String::from_str("Command cannot start with '-'"));
    }
    if contains_dot_dot(b) {
        return Err(String::from_str("Command cannot contain '..' path traversal"));
    }
    Ok(())
}

/// Checks the arguments of a command: not too many, and each neither too long
/// nor holding a NUL byte. The first problem, in order, is reported.
pub fn validate_args(args: &[String]) -> (r: Result<(), String>)
    ensures
        match (r, args_verdict(args_bytes(args@))) {
            (Ok(()), Ok(())) => true,
            (Err(e), Err(m)) => e@ == m,
            _ => false,
        },
{
    let ghost ab = args_bytes(args@);
    if args.len() > MAX_ARGS_COUNT {
        let mut s = String::from_str("Too many arguments: ");
        push_decimal(&mut s, args.len() as u64);
        s.append(" (max ");
        push_decimal(&mut s, MAX_ARGS_COUNT as u64);
        s.append(")");
        return Err(s);
    }
    let mut i: usize = 0;
    while i < args.len()
        invariant
            i <= args@.len(),
            ab == args_bytes(args@),
            args@.len() <= MAX_ARGS_COUNT,
            args_problem_from(ab, 0) == args_problem_from(ab, i as int),
        decreases args@.len() - i,
    {
        let b = args[i].as_str().as_bytes();
        assert(b@ == ab[i as int]);
        if b.len() > MAX_ARG_LENGTH {
            let mut s = String::from_str("Argument ");
            push_decimal(&mut s, i as u64);
            s.append(" too long: ");
            push_decimal(&mut s, b.len() as u64);
            s.append(" chars (max ");
            push_decimal(&mut s, MAX_ARG_LENGTH as u64);
            s.append(")");
            return Err(s);
        }
        if contains_byte(b, 0u8) {
            let mut s = String::from_str("Argument ");
            push_decimal(&mut s, i as u64);
            s.append(" contains null byte");
            return Err(s);
        }
        i = i + 1;
    }
    Ok(())
}

} // verus!
