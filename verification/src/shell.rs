//! The line-editing shell: it turns scancodes into an input line, keeps a
//! history, and runs the few commands the kernel knows.

use vstd::prelude::*;
use vstd::string::StringSliceAdditionalSpecFns;
use crate::history::{cursor_after, cursor_before, pushed_lines, stored_line, InputHistory};
use crate::parser::{
    decimal_text, int_to_str_buf, lemma_decimal_text_len, parse_int_from_bytes, spec_parse_int,
    ParseError,
};
use crate::simple_string::{text_bytes, utf8_text, FixedString};
use crate::vga_buffer::{
    backspace, get_color_code, scancode_to_ascii, spec_color_code, spec_scancode_to_ascii, write_byte,
    Color, ColorCode, Screen, Writer,
};

verus! {

/// How many bytes the input line holds.
pub const INPUT_BUFFER_LEN: usize = 128;

/// A command with its arguments.
#[derive(Debug, Clone, PartialEq, Eq)]
pub enum CommandToExecute {
    Greet { name: Vec<u8> },
    Sum { a: i64, b: i64 },
    Diff { a: i64, b: i64 },
    Min { a: i64, b: i64 },
    Max { a: i64, b: i64 },
    Exit,
}

/// Why a line did not run.
#[derive(Debug, Clone, Copy, PartialEq, Eq, Structural)]
pub enum CommandError {
    UnknownCommand,
    InvalidArguments,
    ExecutionFailed,
    Parse(ParseError),
}

/// How a command ended.
#[derive(Debug, Clone, Copy, PartialEq, Eq, Structural)]
pub enum CommandResult {
    Success,
    Exit,
    Error(CommandError),
}

/// The two keys that walk the history.
#[derive(Debug, Clone, Copy, PartialEq, Eq, Structural)]
pub enum HistoryKey {
    Up,
    Down,
}

/// Whether the shell goes on after an input.
#[derive(Debug, Clone, Copy, PartialEq, Eq, Structural)]
pub enum ShellStatus {
    Running,
    /// The exit command ran: the kernel stops here for good.
    Stopped,
}

/// A command as the grammar sees it: like `CommandToExecute`, with the name
/// of a greeting as plain bytes.
pub enum ParsedCommand {
    Greet { name: Seq<u8> },
    Sum { a: i64, b: i64 },
    Diff { a: i64, b: i64 },
    Min { a: i64, b: i64 },
    Max { a: i64, b: i64 },
    Exit,
}

impl View for CommandToExecute {
    type V = ParsedCommand;

    open spec fn view(&self) -> ParsedCommand {
        match *self {
            CommandToExecute::Greet { name } => ParsedCommand::Greet { name: name@ },
            CommandToExecute::Sum { a, b } => ParsedCommand::Sum { a, b },
            CommandToExecute::Diff { a, b } => ParsedCommand::Diff { a, b },
            CommandToExecute::Min { a, b } => ParsedCommand::Min { a, b },
            CommandToExecute::Max { a, b } => ParsedCommand::Max { a, b },
            CommandToExecute::Exit => ParsedCommand::Exit,
        }
    }
}

/// Whether a byte is ASCII white space.
pub open spec fn is_space(byte: u8) -> bool {
    byte == 0x20 || (0x09 <= byte <= 0x0D)
}

/// The first position from `from` on that holds no white space.
pub open spec fn skip_spaces(bytes: Seq<u8>, from: int) -> int
    decreases bytes.len() - from,
{
    if 0 <= from < bytes.len() && is_space(bytes[from]) {
        skip_spaces(bytes, from + 1)
    } else {
        from
    }
}

/// The first position from `from` on that holds white space or ends the
/// input.
pub open spec fn skip_word(bytes: Seq<u8>, from: int) -> int
    decreases bytes.len() - from,
{
    if 0 <= from < bytes.len() && !is_space(bytes[from]) {
        skip_word(bytes, from + 1)
    } else {
        from
    }
}

/// Where the word that follows position `from` starts.
pub open spec fn word_start(bytes: Seq<u8>, from: int) -> int {
    skip_spaces(bytes, from)
}

/// Where the word that follows position `from` ends.
pub open spec fn word_end(bytes: Seq<u8>, from: int) -> int {
    skip_word(bytes, skip_spaces(bytes, from))
}

/// The word that follows position `from`; empty where none follows.
pub open spec fn word_after(bytes: Seq<u8>, from: int) -> Seq<u8> {
    bytes.subrange(word_start(bytes, from), word_end(bytes, from))
}

/// The skips stay inside the input and move forward only.
pub proof fn lemma_skips_in_range(bytes: Seq<u8>, from: int)
    requires
        0 <= from <= bytes.len(),
    ensures
        from <= skip_spaces(bytes, from) <= bytes.len(),
        from <= skip_word(bytes, from) <= bytes.len(),
    decreases bytes.len() - from,
{
    if from < bytes.len() {
        lemma_skips_in_range(bytes, from + 1);
    }
}

/// `greet`.
pub open spec fn word_greet() -> Seq<u8> {
    seq![0x67u8, 0x72, 0x65, 0x65, 0x74]
}

/// `sum`.
pub open spec fn word_sum() -> Seq<u8> {
    seq![0x73u8, 0x75, 0x6D]
}

/// `diff`.
pub open spec fn word_diff() -> Seq<u8> {
    seq![0x64u8, 0x69, 0x66, 0x66]
}

/// `min`.
pub open spec fn word_min() -> Seq<u8> {
    seq![0x6Du8, 0x69, 0x6E]
}

/// `max`.
pub open spec fn word_max() -> Seq<u8> {
    seq![0x6Du8, 0x61, 0x78]
}

/// `exit`.
pub open spec fn word_exit() -> Seq<u8> {
    seq![0x65u8, 0x78, 0x69, 0x74]
}

/// `stranger`, the name greeted where none is given.
pub open spec fn word_stranger() -> Seq<u8> {
    seq![0x73u8, 0x74, 0x72, 0x61, 0x6E, 0x67, 0x65, 0x72]
}

/// The two numbers behind a command word that ends at `from`: both words
/// must be there, and both must parse; the first that does not decides the
/// error.
pub open spec fn spec_two_numbers(bytes: Seq<u8>, from: int) -> Result<(i64, i64), CommandError> {
    let first = word_after(bytes, from);
    let second = word_after(bytes, word_end(bytes, from));
    if first.len() == 0 || second.len() == 0 {
        Err(CommandError::InvalidArguments)
    } else {
        match spec_parse_int(first) {
            Err(e) => Err(CommandError::Parse(e)),
            Ok(a) => match spec_parse_int(second) {
                Err(e) => Err(CommandError::Parse(e)),
                Ok(b) => Ok((a, b)),
            },
        }
    }
}

/// The command that a line spells. Words are separated by ASCII white
/// space. The first word names the command; `greet` takes an optional name,
/// the four arithmetic commands take two integers, `exit` takes nothing;
/// what follows the arguments is ignored. A line without a word, or with an
/// unknown first word, is an unknown command.
pub open spec fn spec_command(bytes: Seq<u8>) -> Result<ParsedCommand, CommandError> {
    let word = word_after(bytes, 0);
    let rest = word_end(bytes, 0);
    if word == word_greet() {
        let name = word_after(bytes, rest);
        Ok(
            ParsedCommand::Greet {
                name: if name.len() == 0 {
                    word_stranger()
                } else {
                    name
                },
            },
        )
    } else if word == word_sum() {
        match spec_two_numbers(bytes, rest) {
            Err(e) => Err(e),
            Ok(pair) => Ok(ParsedCommand::Sum { a: pair.0, b: pair.1 }),
        }
    } else if word == word_diff() {
        match spec_two_numbers(bytes, rest) {
            Err(e) => Err(e),
            Ok(pair) => Ok(ParsedCommand::Diff { a: pair.0, b: pair.1 }),
        }
    } else if word == word_min() {
        match spec_two_numbers(bytes, rest) {
            Err(e) => Err(e),
            Ok(pair) => Ok(ParsedCommand::Min { a: pair.0, b: pair.1 }),
        }
    } else if word == word_max() {
        match spec_two_numbers(bytes, rest) {
            Err(e) => Err(e),
            Ok(pair) => Ok(ParsedCommand::Max { a: pair.0, b: pair.1 }),
        }
    } else if word == word_exit() {
        Ok(ParsedCommand::Exit)
    } else {
        Err(CommandError::UnknownCommand)
    }
}

/// Whether two byte strings are the same.
fn same_bytes(left: &[u8], right: &[u8]) -> (same: bool)
    ensures
        same == (left@ == right@),
{
    if left.len() != right.len() {
        return false;
    }
    let mut i: usize = 0;
    while i < left.len()
        invariant
            i <= left.len(),
            left.len() == right.len(),
            forall|j: int| 0 <= j < i ==> left@[j] == right@[j],
        decreases left.len() - i,
    {
        if left[i] != right[i] {
            return false;
        }
        i += 1;
    }
    assert(left@ =~= right@);
    true
}

/// The bounds of the word that follows position `from`.
fn next_word(bytes: &[u8], from: usize) -> (bounds: (usize, usize))
    requires
        from <= bytes@.len(),
    ensures
        bounds.0 == word_start(bytes@, from as int),
        bounds.1 == word_end(bytes@, from as int),
        from <= bounds.0 <= bounds.1 <= bytes@.len(),
{
    let mut start: usize = from;
    while start < bytes.len() && (bytes[start] == 0x20 || (0x09 <= bytes[start] && bytes[start] <= 0x0D))
        invariant
            from <= start <= bytes@.len(),
            skip_spaces(bytes@, start as int) == skip_spaces(bytes@, from as int),
        decreases bytes@.len() - start,
    {
        start += 1;
    }
    let mut end: usize = start;
    while end < bytes.len() && !(bytes[end] == 0x20 || (0x09 <= bytes[end] && bytes[end] <= 0x0D))
        invariant
            start <= end <= bytes@.len(),
            skip_word(bytes@, end as int) == skip_word(bytes@, start as int),
        decreases bytes@.len() - end,
    {
        end += 1;
    }
    (start, end)
}

/// The part of `bytes` between two positions.
fn part(bytes: &[u8], start: usize, end: usize) -> (word: &[u8])
    requires
        start <= end <= bytes@.len(),
    ensures
        word@ == bytes@.subrange(start as int, end as int),
{
    &bytes[start..end]
}

/// The two numbers behind a command word that ends at `from`.
fn two_numbers(bytes: &[u8], from: usize) -> (numbers: Result<(i64, i64), CommandError>)
    requires
        from <= bytes@.len(),
    ensures
        numbers == spec_two_numbers(bytes@, from as int),
{
    let (s1, e1) = next_word(bytes, from);
    let (s2, e2) = next_word(bytes, e1);
    if s1 == e1 {
        return Err(CommandError::InvalidArguments);
    }
    if s2 == e2 {
        return Err(CommandError::InvalidArguments);
    }
    let a = match parse_int_from_bytes(part(bytes, s1, e1)) {
        Err(e) => {
            return Err(CommandError::Parse(e));
        },
        Ok(a) => a,
    };
    let b = match parse_int_from_bytes(part(bytes, s2, e2)) {
        Err(e) => {
            return Err(CommandError::Parse(e));
        },
        Ok(b) => b,
    };
    Ok((a, b))
}

/// A copy of a byte string.
fn to_vec(bytes: &[u8]) -> (copy: Vec<u8>)
    ensures
        copy@ == bytes@,
{
    let mut copy: Vec<u8> = Vec::new();
    let mut i: usize = 0;
    while i < bytes.len()
        invariant
            i <= bytes.len(),
            copy@ == bytes@.take(i as int),
        decreases bytes.len() - i,
    {
        copy.push(bytes[i]);
        assert(copy@ =~= bytes@.take(i + 1));
        i += 1;
    }
    assert(bytes@.take(i as int) =~= bytes@);
    copy
}

/// Reads the command that a line spells.
pub fn command_parser(input: &str) -> (command: Result<CommandToExecute, CommandError>)
    ensures
        match spec_command(input.spec_bytes()) {
            Ok(parsed) => command matches Ok(found) && found@ == parsed,
            Err(e) => command matches Err(found) && found == e,
        },
{
    command_from_bytes(input.as_bytes())
}

/// Reads the command that the bytes of a line spell.
pub fn command_from_bytes(bytes: &[u8]) -> (command: Result<CommandToExecute, CommandError>)
    ensures
        match spec_command(bytes@) {
            Ok(parsed) => command matches Ok(found) && found@ == parsed,
            Err(e) => command matches Err(found) && found == e,
        },
{
    let (start, end) = next_word(bytes, 0);
    let word = part(bytes, start, end);
    let greet: [u8; 5] = [0x67, 0x72, 0x65, 0x65, 0x74];
    let sum: [u8; 3] = [0x73, 0x75, 0x6D];
    let diff: [u8; 4] = [0x64, 0x69, 0x66, 0x66];
    let min: [u8; 3] = [0x6D, 0x69, 0x6E];
    let max: [u8; 3] = [0x6D, 0x61, 0x78];
    let exit: [u8; 4] = [0x65, 0x78, 0x69, 0x74];
    assert(greet@ =~= word_greet());
    assert(sum@ =~= word_sum());
    assert(diff@ =~= word_diff());
    assert(min@ =~= word_min());
    assert(max@ =~= word_max());
    assert(exit@ =~= word_exit());
    if same_bytes(word, greet.as_slice()) {
        let (s, e) = next_word(bytes, end);
        if s == e {
            let stranger: [u8; 8] = [0x73, 0x74, 0x72, 0x61, 0x6E, 0x67, 0x65, 0x72];
            assert(stranger@ =~= word_stranger());
            Ok(CommandToExecute::Greet { name: to_vec(stranger.as_slice()) })
        } else {
            Ok(CommandToExecute::Greet { name: to_vec(part(bytes, s, e)) })
        }
    } else if same_bytes(word, sum.as_slice()) {
        match two_numbers(bytes, end) {
            Err(e) => Err(e),
            Ok(pair) => Ok(CommandToExecute::Sum { a: pair.0, b: pair.1 }),
        }
    } else if same_bytes(word, diff.as_slice()) {
        match two_numbers(bytes, end) {
            Err(e) => Err(e),
            Ok(pair) => Ok(CommandToExecute::Diff { a: pair.0, b: pair.1 }),
        }
    } else if same_bytes(word, min.as_slice()) {
        match two_numbers(bytes, end) {
            Err(e) => Err(e),
            Ok(pair) => Ok(CommandToExecute::Min { a: pair.0, b: pair.1 }),
        }
    } else if same_bytes(word, max.as_slice()) {
        match two_numbers(bytes, end) {
            Err(e) => Err(e),
            Ok(pair) => Ok(CommandToExecute::Max { a: pair.0, b: pair.1 }),
        }
    } else if same_bytes(word, exit.as_slice()) {
        Ok(CommandToExecute::Exit)
    } else {
        Err(CommandError::UnknownCommand)
    }
}

/// White on black: input and command output.
pub open spec fn white() -> ColorCode {
    spec_color_code(Color::White, Color::Black)
}

/// Light red on black: errors.
pub open spec fn light_red() -> ColorCode {
    spec_color_code(Color::LightRed, Color::Black)
}

/// Yellow on black: the prompt.
pub open spec fn yellow() -> ColorCode {
    spec_color_code(Color::Yellow, Color::Black)
}

/// Prints bytes in a colour.
pub fn print_bytes(writer: &mut Writer, bytes: &[u8], color_code: ColorCode)
    ensures
        final(writer)@ == old(writer)@.write_all(bytes@, color_code),
{
    let mut i: usize = 0;
    while i < bytes.len()
        invariant
            i <= bytes.len(),
            writer@ == old(writer)@.write_all(bytes@.take(i as int), color_code),
        decreases bytes.len() - i,
    {
        proof {
            assert(bytes@.take(i + 1).drop_last() =~= bytes@.take(i as int));
            assert(bytes@.take(i + 1).last() == bytes@[i as int]);
        }
        write_byte(writer, bytes[i], color_code);
        i += 1;
    }
    assert(bytes@.take(i as int) =~= bytes@);
}

/// Prints text in a colour.
pub fn print_string(writer: &mut Writer, s: &str, color_code: ColorCode)
    ensures
        final(writer)@ == old(writer)@.write_all(s.spec_bytes(), color_code),
{
    print_bytes(writer, s.as_bytes(), color_code);
}

/// Prints the version text in light cyan.
pub fn print_os_version(writer: &mut Writer, os_version: &str)
    ensures
        final(writer)@ == old(writer)@.write_all(
            os_version.spec_bytes(),
            spec_color_code(Color::LightCyan, Color::Black),
        ),
{
    let color_code = get_color_code(Color::LightCyan, Color::Black);
    print_string(writer, os_version, color_code);
}

/// Prints the greeting of the shell in light green.
pub fn print_hello(writer: &mut Writer)
    ensures
        final(writer)@ == old(writer)@.write_all(
            "Hello, from Shell!\n".spec_bytes(),
            spec_color_code(Color::LightGreen, Color::Black),
        ),
{
    let color_code = get_color_code(Color::LightGreen, Color::Black);
    print_string(writer, "Hello, from Shell!\n", color_code);
}

/// Prints the prompt in yellow.
pub fn print_prompt(writer: &mut Writer)
    ensures
        final(writer)@ == old(writer)@.write_all("shell> ".spec_bytes(), yellow()),
{
    let color_code = get_color_code(Color::Yellow, Color::Black);
    print_string(writer, "shell> ", color_code);
}

/// Prints the output of a command in white.
pub fn print_command_output(writer: &mut Writer, output: &str)
    ensures
        final(writer)@ == old(writer)@.write_all(output.spec_bytes(), white()),
{
    let color_code = get_color_code(Color::White, Color::Black);
    print_string(writer, output, color_code);
}

/// Prints an error message in light red.
pub fn print_error(writer: &mut Writer, message: &str)
    ensures
        final(writer)@ == old(writer)@.write_all(message.spec_bytes(), light_red()),
{
    let color_code = get_color_code(Color::LightRed, Color::Black);
    print_string(writer, message, color_code);
}

/// The console after an error was reported: its message in light red, and
/// for a parse error the parser's message and a line feed.
pub open spec fn spec_report_error(screen: Screen, error: CommandError) -> Screen {
    match error {
        CommandError::UnknownCommand => screen.write_all("Unknown command\n".spec_bytes(), light_red()),
        CommandError::InvalidArguments => screen.write_all(
            "Invalid arguments for command\n".spec_bytes(),
            light_red(),
        ),
        CommandError::ExecutionFailed => screen.write_all(
            "Command failed to execute\n".spec_bytes(),
            light_red(),
        ),
        CommandError::Parse(parse_error) => screen.write_all(
            spec_parse_message(parse_error),
            light_red(),
        ).write_all("\n".spec_bytes(), light_red()),
    }
}

/// The bytes of the message of a parse error.
pub open spec fn spec_parse_message(error: ParseError) -> Seq<u8> {
    match error {
        ParseError::InvalidDigit => "input contains a non-digit character".spec_bytes(),
        ParseError::EmptyInput => "input string is empty".spec_bytes(),
        ParseError::InvalidSign => "invalid sign placement".spec_bytes(),
        ParseError::BufferTooSmall => "buffer too small for conversion".spec_bytes(),
    }
}

/// Reports why a line did not run.
pub fn report_error(writer: &mut Writer, error: CommandError)
    ensures
        final(writer)@ == spec_report_error(old(writer)@, error),
{
    match error {
        CommandError::UnknownCommand => print_error(writer, "Unknown command\n"),
        CommandError::InvalidArguments => {
            print_error(writer, "Invalid arguments for command\n");
        },
        CommandError::ExecutionFailed => print_error(writer, "Command failed to execute\n"),
        CommandError::Parse(parse_error) => {
            let message = match parse_error {
                ParseError::InvalidDigit => "input contains a non-digit character",
                ParseError::EmptyInput => "input string is empty",
                ParseError::InvalidSign => "invalid sign placement",
                ParseError::BufferTooSmall => "buffer too small for conversion",
            };
            print_error(writer, message);
            print_error(writer, "\n");
        },
    }
}

/// The greeting for a name: `Hello, `, the name and `!`, cut at 64 bytes;
/// nothing where the cut leaves broken UTF-8.
pub open spec fn spec_greeting(name: Seq<u8>) -> Seq<u8> {
    let full = "Hello, ".spec_bytes() + name + "!\n".spec_bytes();
    text_bytes(if full.len() <= 64 { full } else { full.take(64) })
}

/// The number that an arithmetic command prints, where it fits 64 bits.
pub open spec fn spec_command_value(command: ParsedCommand) -> Option<int> {
    match command {
        ParsedCommand::Sum { a, b } => Some(a + b),
        ParsedCommand::Diff { a, b } => Some(a - b),
        ParsedCommand::Min { a, b } => Some(if a <= b { a as int } else { b as int }),
        ParsedCommand::Max { a, b } => Some(if a >= b { a as int } else { b as int }),
        _ => None,
    }
}

/// Whether a number fits a 64-bit signed integer.
pub open spec fn fits_i64(value: int) -> bool {
    i64::MIN <= value <= i64::MAX
}

/// How a command ends: an arithmetic command whose result does not fit 64
/// bits fails, `exit` ends the shell, every other command succeeds.
pub open spec fn spec_command_result(command: ParsedCommand) -> CommandResult {
    match command {
        ParsedCommand::Exit => CommandResult::Exit,
        ParsedCommand::Greet { .. } => CommandResult::Success,
        _ => if fits_i64(spec_command_value(command)->0) {
            CommandResult::Success
        } else {
            CommandResult::Error(CommandError::ExecutionFailed)
        },
    }
}

/// The console after a command ran: the greeting, or the result in decimal
/// and a line feed, or the farewell, all in white; nothing for a command
/// that fails.
pub open spec fn spec_command_screen(screen: Screen, command: ParsedCommand) -> Screen {
    match command {
        ParsedCommand::Exit => screen.write_all("Exiting shell...\n".spec_bytes(), white()),
        ParsedCommand::Greet { name } => screen.write_all(spec_greeting(name), white()),
        _ => if fits_i64(spec_command_value(command)->0) {
            screen.write_all(decimal_text(spec_command_value(command)->0), white()).write_all(
                "\n".spec_bytes(),
                white(),
            )
        } else {
            screen
        },
    }
}

/// Prints a number and a line feed in white.
fn print_number(writer: &mut Writer, value: i64)
    ensures
        final(writer)@ == old(writer)@.write_all(decimal_text(value as int), white()).write_all(
            "\n".spec_bytes(),
            white(),
        ),
{
    let mut digits: [u8; 32] = [0u8; 32];
    proof {
        lemma_decimal_text_len(value);
    }
    let color_code = get_color_code(Color::White, Color::Black);
    match int_to_str_buf(value, &mut digits) {
        Ok(count) => {
            let all = digits.as_slice();
            let text = part(all, 0, count);
            assert(text@ =~= decimal_text(value as int));
            print_bytes(writer, text, color_code);
        },
        Err(error) => {},
    }
    print_command_output(writer, "\n");
}

/// Runs a command and prints what it says.
pub fn execute_command(writer: &mut Writer, command: CommandToExecute) -> (result: CommandResult)
    ensures
        result == spec_command_result(command@),
        final(writer)@ == spec_command_screen(old(writer)@, command@),
{
    match command {
        CommandToExecute::Greet { name } => {
            let mut msg: FixedString<64> = FixedString::new();
            let _ = msg.push_str("Hello, ");
            let _ = msg.push_bytes(name.as_slice());
            let _ = msg.push_str("!\n");
            proof {
                let hello = "Hello, ".spec_bytes();
                let bang = "!\n".spec_bytes();
                let full = hello + name@ + bang;
                if full.len() <= 64 {
                    assert(msg@ =~= full);
                } else if hello.len() + name@.len() <= 64 {
                    assert(msg@ =~= full.take(64));
                } else if hello.len() <= 64 {
                    assert(msg@ =~= full.take(64));
                } else {
                    assert(msg@ =~= full.take(64));
                }
            }
            print_command_output(writer, msg.as_str());
            CommandResult::Success
        },
        CommandToExecute::Sum { a, b } => {
            if (b > 0 && a > i64::MAX - b) || (b < 0 && a < i64::MIN - b) {
                CommandResult::Error(CommandError::ExecutionFailed)
            } else {
                print_number(writer, a + b);
                CommandResult::Success
            }
        },
        CommandToExecute::Diff { a, b } => {
            if (b < 0 && a > i64::MAX + b) || (b > 0 && a < i64::MIN + b) {
                CommandResult::Error(CommandError::ExecutionFailed)
            } else {
                print_number(writer, a - b);
                CommandResult::Success
            }
        },
        CommandToExecute::Min { a, b } => {
            print_number(writer, if a <= b { a } else { b });
            CommandResult::Success
        },
        CommandToExecute::Max { a, b } => {
            print_number(writer, if a >= b { a } else { b });
            CommandResult::Success
        },
        CommandToExecute::Exit => {
            print_command_output(writer, "Exiting shell...\n");
            CommandResult::Exit
        },
    }
}

/// What the shell knows between two inputs.
pub struct ShellView {
    /// The line being typed.
    pub line: Seq<u8>,
    /// The last scancode was the prefix of an extended key.
    pub extended_prefix: bool,
    /// The history, oldest line first.
    pub lines: Seq<Seq<u8>>,
    /// The history cursor.
    pub cursor: int,
    /// The typed line that was set aside while the history is shown.
    pub saved: Seq<u8>,
    /// Whether a line is set aside.
    pub saved_active: bool,
}

/// The 0x0A byte that ends a line.
pub const LINE_FEED: u8 = 0x0A;

/// The byte that the Backspace key gives.
pub const BACKSPACE: u8 = 0x08;

/// The scancode that announces an extended key.
pub const EXTENDED_PREFIX: u8 = 0xE0;

/// The second scancode of the Up key.
pub const KEY_UP: u8 = 0x48;

/// The second scancode of the Down key.
pub const KEY_DOWN: u8 = 0x50;

/// What a line shows after it went through a buffer of 128 bytes: its
/// first 128 bytes, or nothing where the cut leaves broken UTF-8.
pub open spec fn owned_text(text: Seq<u8>) -> Seq<u8> {
    text_bytes(stored_line(text))
}

/// Where the text of a line ends once trailing white space is dropped.
pub open spec fn trim_end(bytes: Seq<u8>) -> int
    decreases bytes.len(),
{
    if bytes.len() > 0 && is_space(bytes.last()) {
        trim_end(bytes.drop_last())
    } else {
        bytes.len() as int
    }
}

/// A line without the white space at its ends.
pub open spec fn trimmed(bytes: Seq<u8>) -> Seq<u8> {
    if skip_spaces(bytes, 0) < trim_end(bytes) {
        bytes.subrange(skip_spaces(bytes, 0), trim_end(bytes))
    } else {
        Seq::empty()
    }
}

impl ShellView {
    /// The shell once the history shows the typed line again: the cursor
    /// behind the newest line, nothing set aside.
    pub open spec fn reset_tracking(self) -> ShellView {
        ShellView { cursor: self.lines.len() as int, saved: Seq::empty(), saved_active: false, ..self }
    }

    /// The shell and the console after the typed line was replaced by
    /// `text`: the old line erased cell by cell, then as much of the text
    /// as the line holds typed in its place.
    pub open spec fn replace_line(self, screen: Screen, text: Seq<u8>) -> (ShellView, Screen) {
        let kept = stored_line(text);
        (
            ShellView { line: kept, ..self },
            screen.erase(self.line.len(), white()).write_all(kept, white()),
        )
    }

    /// The shell and the console after the line set aside came back, or an
    /// empty line where none was set aside.
    pub open spec fn restore_saved(self, screen: Screen) -> (ShellView, Screen) {
        let text = if self.saved_active {
            owned_text(text_bytes(self.saved))
        } else {
            Seq::empty()
        };
        let (shell, shown) = self.replace_line(screen, text);
        (shell.reset_tracking(), shown)
    }

    /// The shell and the console after an arrow key. With an empty history
    /// nothing happens. Otherwise the typed line is set aside when the walk
    /// starts. Up shows the line before the cursor, the oldest at most;
    /// Down shows the line after it, and behind the newest the line that
    /// was set aside.
    pub open spec fn navigate(self, screen: Screen, key: HistoryKey) -> (ShellView, Screen) {
        if self.lines.len() == 0 {
            (self, screen)
        } else {
            let start = if self.cursor >= self.lines.len() && !self.saved_active {
                ShellView { saved: stored_line(text_bytes(self.line)), saved_active: true, ..self }
            } else {
                self
            };
            match key {
                HistoryKey::Up => {
                    let cursor = cursor_before(start.cursor, start.lines.len() as int);
                    ShellView { cursor, ..start }.replace_line(
                        screen,
                        owned_text(text_bytes(start.lines[cursor])),
                    )
                },
                HistoryKey::Down => {
                    let cursor = cursor_after(start.cursor, start.lines.len() as int);
                    if cursor < start.lines.len() {
                        ShellView { cursor, ..start }.replace_line(
                            screen,
                            owned_text(text_bytes(start.lines[cursor])),
                        )
                    } else {
                        ShellView { cursor, ..start }.restore_saved(screen)
                    }
                },
            }
        }
    }

    /// The shell, the console and the status after the typed line was
    /// submitted. An empty line, and a line of white space only, do
    /// nothing; a line that is not valid UTF-8 is reported. Any other line
    /// goes, trimmed, into the history and is run as a command; an error is
    /// reported, and `exit` stops the shell.
    pub open spec fn submit(self, screen: Screen) -> (ShellView, Screen, ShellStatus) {
        if self.line.len() == 0 {
            (self, screen, ShellStatus::Running)
        } else if !vstd::utf8::valid_utf8(self.line) {
            (
                self,
                screen.write_all("Input is not valid UTF-8\n".spec_bytes(), light_red()),
                ShellStatus::Running,
            )
        } else if trimmed(self.line).len() == 0 {
            (self, screen, ShellStatus::Running)
        } else {
            let text = owned_text(trimmed(self.line));
            let shell = ShellView { lines: pushed_lines(self.lines, text), ..self }.reset_tracking();
            match spec_command(text) {
                Err(error) => (shell, spec_report_error(screen, error), ShellStatus::Running),
                Ok(command) => match spec_command_result(command) {
                    CommandResult::Success => (
                        shell,
                        spec_command_screen(screen, command),
                        ShellStatus::Running,
                    ),
                    CommandResult::Exit => (
                        shell,
                        spec_command_screen(screen, command),
                        ShellStatus::Stopped,
                    ),
                    CommandResult::Error(error) => (
                        shell,
                        spec_report_error(spec_command_screen(screen, command), error),
                        ShellStatus::Running,
                    ),
                },
            }
        }
    }

    /// The shell, the console and the status after one input byte. A line
    /// feed is echoed and submits the line; unless the shell stops, the line
    /// is emptied and the prompt printed. A backspace removes the last byte
    /// of a line that has one. Any other byte is appended and echoed while
    /// the line has room, and ends a history walk.
    pub open spec fn input_byte(self, screen: Screen, byte: u8) -> (ShellView, Screen, ShellStatus) {
        if byte == LINE_FEED {
            let echoed = (Screen { color: white(), ..screen }).write_byte(byte);
            let (shell, shown, status) = self.submit(echoed);
            if status == ShellStatus::Stopped {
                (shell, shown, status)
            } else {
                (
                    ShellView { line: Seq::empty(), ..shell },
                    shown.write_all("shell> ".spec_bytes(), yellow()),
                    status,
                )
            }
        } else if byte == BACKSPACE {
            if self.line.len() > 0 {
                (
                    ShellView { line: self.line.drop_last(), ..self }.reset_tracking(),
                    (Screen { color: white(), ..screen }).backspace(),
                    ShellStatus::Running,
                )
            } else {
                (self, screen, ShellStatus::Running)
            }
        } else if self.line.len() < INPUT_BUFFER_LEN {
            (
                ShellView { line: self.line.push(byte), ..self }.reset_tracking(),
                (Screen { color: white(), ..screen }).write_byte(byte),
                ShellStatus::Running,
            )
        } else {
            (self, screen, ShellStatus::Running)
        }
    }

    /// The shell, the console and the status after one scancode. After the
    /// extended prefix, the Up and Down keys walk the history and every
    /// other code is dropped. The prefix itself is only noted. Any other
    /// code is an input byte where the key has one.
    pub open spec fn scancode(self, screen: Screen, code: u8) -> (ShellView, Screen, ShellStatus) {
        if self.extended_prefix {
            let plain = ShellView { extended_prefix: false, ..self };
            if code == KEY_UP {
                let (shell, shown) = plain.navigate(screen, HistoryKey::Up);
                (shell, shown, ShellStatus::Running)
            } else if code == KEY_DOWN {
                let (shell, shown) = plain.navigate(screen, HistoryKey::Down);
                (shell, shown, ShellStatus::Running)
            } else {
                (plain, screen, ShellStatus::Running)
            }
        } else if code == EXTENDED_PREFIX {
            (ShellView { extended_prefix: true, ..self }, screen, ShellStatus::Running)
        } else {
            match spec_scancode_to_ascii(code) {
                Some(byte) => self.input_byte(screen, byte),
                None => (self, screen, ShellStatus::Running),
            }
        }
    }
}

/// The line editor.
pub struct Shell {
    line: Vec<u8>,
    extended_prefix: bool,
    history: InputHistory,
    saved_line: FixedString<128>,
    saved_line_active: bool,
}

impl View for Shell {
    type V = ShellView;

    closed spec fn view(&self) -> ShellView {
        ShellView {
            line: self.line@,
            extended_prefix: self.extended_prefix,
            lines: self.history.spec_lines(),
            cursor: self.history.spec_cursor(),
            saved: self.saved_line@,
            saved_active: self.saved_line_active,
        }
    }
}

/// The first and the last position of a line's text without the white
/// space at its ends.
fn trim_bounds(bytes: &[u8]) -> (bounds: (usize, usize))
    ensures
        bounds.0 == skip_spaces(bytes@, 0),
        bounds.1 == trim_end(bytes@),
        bounds.0 <= bytes@.len(),
        bounds.1 <= bytes@.len(),
{
    let (start, _) = next_word(bytes, 0);
    let mut end: usize = bytes.len();
    assert(bytes@.take(end as int) =~= bytes@);
    while end > 0 && (bytes[end - 1] == 0x20 || (0x09 <= bytes[end - 1] && bytes[end - 1] <= 0x0D))
        invariant
            end <= bytes@.len(),
            trim_end(bytes@.take(end as int)) == trim_end(bytes@),
        decreases end,
    {
        proof {
            assert(bytes@.take(end as int).drop_last() =~= bytes@.take(end - 1));
            assert(bytes@.take(end as int).last() == bytes@[end - 1]);
        }
        end -= 1;
    }
    proof {
        if end > 0 {
            assert(bytes@.take(end as int).last() == bytes@[end - 1]);
        }
    }
    (start, end)
}

impl Shell {
    /// A shell with an empty line and an empty history.
    pub fn new() -> (shell: Self)
        ensures
            shell@ == (ShellView {
                line: Seq::empty(),
                extended_prefix: false,
                lines: Seq::empty(),
                cursor: 0,
                saved: Seq::empty(),
                saved_active: false,
            }),
    {
        Shell {
            line: Vec::new(),
            extended_prefix: false,
            history: InputHistory::new(),
            saved_line: FixedString::new(),
            saved_line_active: false,
        }
    }

    /// Handles one scancode from the keyboard.
    pub fn handle_scancode(&mut self, writer: &mut Writer, scancode: u8) -> (status: ShellStatus)
        ensures
            (final(self)@, final(writer)@, status) == old(self)@.scancode(old(writer)@, scancode),
    {
        if self.extended_prefix {
            self.extended_prefix = false;
            if scancode == KEY_UP {
                self.handle_history_navigation(writer, HistoryKey::Up);
            } else if scancode == KEY_DOWN {
                self.handle_history_navigation(writer, HistoryKey::Down);
            }
            return ShellStatus::Running;
        }
        if scancode == EXTENDED_PREFIX {
            self.extended_prefix = true;
            return ShellStatus::Running;
        }
        match scancode_to_ascii(scancode) {
            Some(byte) => self.handle_input_byte(writer, byte),
            None => ShellStatus::Running,
        }
    }

    /// Handles one input byte.
    pub fn handle_input_byte(&mut self, writer: &mut Writer, byte: u8) -> (status: ShellStatus)
        ensures
            (final(self)@, final(writer)@, status) == old(self)@.input_byte(old(writer)@, byte),
    {
        if byte == LINE_FEED {
            self.echo_byte(writer, byte);
            let status = self.process_buffer(writer);
            match status {
                ShellStatus::Stopped => ShellStatus::Stopped,
                ShellStatus::Running => {
                    self.clear_buffer();
                    print_prompt(writer);
                    ShellStatus::Running
                },
            }
        } else if byte == BACKSPACE {
            self.handle_backspace(writer);
            ShellStatus::Running
        } else {
            if self.line.len() < INPUT_BUFFER_LEN {
                self.reset_history_tracking();
                self.line.push(byte);
                self.echo_byte(writer, byte);
            }
            ShellStatus::Running
        }
    }

    /// Shows a typed byte in white.
    pub fn echo_byte(&self, writer: &mut Writer, byte: u8)
        ensures
            final(writer)@ == (Screen { color: white(), ..old(writer)@ }).write_byte(byte),
    {
        let color_code = get_color_code(Color::White, Color::Black);
        write_byte(writer, byte, color_code);
    }

    /// Empties the typed line; the console stays as it is.
    pub fn clear_buffer(&mut self)
        ensures
            final(self)@ == (ShellView { line: Seq::empty(), ..old(self)@ }),
    {
        self.line.clear();
    }

    /// Removes the last byte of the typed line, if it has one.
    pub fn handle_backspace(&mut self, writer: &mut Writer)
        ensures
            (final(self)@, final(writer)@, ShellStatus::Running) == old(self)@.input_byte(
                old(writer)@,
                BACKSPACE,
            ),
    {
        if self.line.len() > 0 {
            let _ = self.line.pop();
            self.erase_last_char(writer);
            self.reset_history_tracking();
        }
    }

    /// Handles an arrow key.
    pub fn handle_history_navigation(&mut self, writer: &mut Writer, key: HistoryKey)
        ensures
            (final(self)@, final(writer)@) == old(self)@.navigate(old(writer)@, key),
    {
        if self.history.is_empty() {
            return ;
        }
        if self.history.is_at_current() && !self.saved_line_active {
            self.save_current_line();
        }
        match key {
            HistoryKey::Up => {
                let owned = match self.history.previous() {
                    Some(line) => Self::own_line(line),
                    None => FixedString::new(),
                };
                self.replace_buffer_with(writer, owned.as_str());
            },
            HistoryKey::Down => {
                let owned = match self.history.next() {
                    Some(line) => Some(Self::own_line(line)),
                    None => None,
                };
                match owned {
                    Some(line) => {
                        self.replace_buffer_with(writer, line.as_str());
                    },
                    None => {
                        self.restore_saved_line(writer);
                    },
                }
            },
        }
    }

    /// Erases the cell before the cursor, in white.
    pub fn erase_last_char(&self, writer: &mut Writer)
        ensures
            final(writer)@ == (Screen { color: white(), ..old(writer)@ }).backspace(),
    {
        let color_code = get_color_code(Color::White, Color::Black);
        backspace(writer, color_code);
    }

    /// Sets the typed line aside.
    pub fn save_current_line(&mut self)
        ensures
            final(self)@ == (ShellView {
                saved: stored_line(text_bytes(old(self)@.line)),
                saved_active: true,
                ..old(self)@
            }),
    {
        let owned = Self::own_line(self.current_line());
        self.saved_line = owned;
        self.saved_line_active = true;
    }

    /// Brings back the line that was set aside.
    pub fn restore_saved_line(&mut self, writer: &mut Writer)
        ensures
            (final(self)@, final(writer)@) == old(self)@.restore_saved(old(writer)@),
    {
        if self.saved_line_active {
            let owned = Self::own_line(self.saved_line.as_str());
            self.replace_buffer_with(writer, owned.as_str());
        } else {
            let nothing = "";
            proof {
                reveal_strlit("");
                assert(nothing@ =~= Seq::<char>::empty());
                assert(nothing.spec_bytes() =~= Seq::<u8>::empty());
            }
            self.replace_buffer_with(writer, nothing);
        }
        self.saved_line.clear();
        self.saved_line_active = false;
        self.history.reset_navigation();
    }

    /// Replaces the typed line, on the console too.
    pub fn replace_buffer_with(&mut self, writer: &mut Writer, line: &str)
        ensures
            (final(self)@, final(writer)@) == old(self)@.replace_line(old(writer)@, line.spec_bytes()),
    {
        self.clear_displayed_buffer(writer);
        let bytes = line.as_bytes();
        let ghost erased = writer@;
        let mut i: usize = 0;
        assert(stored_line(bytes@.take(0)) =~= Seq::<u8>::empty());
        while i < bytes.len()
            invariant
                i <= bytes.len(),
                self@ == (ShellView { line: stored_line(bytes@.take(i as int)), ..old(self)@ }),
                writer@ == erased.write_all(stored_line(bytes@.take(i as int)), white()),
            decreases bytes.len() - i,
        {
            proof {
                let shorter = bytes@.take(i as int);
                let longer = bytes@.take(i + 1);
                if i < 128 {
                    assert(stored_line(longer) =~= stored_line(shorter).push(bytes@[i as int]));
                    assert(stored_line(longer).drop_last() =~= stored_line(shorter));
                } else {
                    assert(stored_line(longer) =~= stored_line(shorter));
                }
            }
            if self.line.len() < INPUT_BUFFER_LEN {
                self.line.push(bytes[i]);
                self.echo_byte(writer, bytes[i]);
            }
            i += 1;
        }
        assert(bytes@.take(i as int) =~= bytes@);
    }

    /// Erases the typed line from the console and empties it.
    pub fn clear_displayed_buffer(&mut self, writer: &mut Writer)
        ensures
            final(self)@ == (ShellView { line: Seq::empty(), ..old(self)@ }),
            final(writer)@ == old(writer)@.erase(old(self)@.line.len(), white()),
    {
        let ghost total = self.line@.len();
        while self.line.len() > 0
            invariant
                self.line@.len() <= total,
                total == old(self)@.line.len(),
                self@ == (ShellView { line: self.line@, ..old(self)@ }),
                writer@ == old(writer)@.erase((total - self.line@.len()) as nat, white()),
            decreases self.line@.len(),
        {
            let _ = self.line.pop();
            self.erase_last_char(writer);
        }
        assert(self.line@ =~= Seq::<u8>::empty());
    }

    /// The typed line as text; empty where it is not valid UTF-8.
    pub fn current_line(&self) -> (line: &str)
        ensures
            line.spec_bytes() == text_bytes(self@.line),
    {
        match utf8_text(self.line.as_slice()) {
            Some(text) => text,
            None => {
                let nothing = "";
                proof {
                    reveal_strlit("");
                    assert(nothing@ =~= Seq::<char>::empty());
                    assert(nothing.spec_bytes() =~= Seq::<u8>::empty());
                }
                nothing
            },
        }
    }

    /// Ends a history walk: the cursor goes behind the newest line and
    /// nothing stays set aside.
    pub fn reset_history_tracking(&mut self)
        ensures
            final(self)@ == old(self)@.reset_tracking(),
    {
        self.history.reset_navigation();
        self.saved_line.clear();
        self.saved_line_active = false;
    }

    /// A copy of a line in a buffer of 128 bytes.
    pub fn own_line(line: &str) -> (owned: FixedString<128>)
        ensures
            owned@ == stored_line(line.spec_bytes()),
    {
        let mut owned: FixedString<128> = FixedString::new();
        let _ = owned.push_str(line);
        assert(owned@ =~= stored_line(line.spec_bytes()));
        owned
    }

    /// Submits the typed line.
    pub fn process_buffer(&mut self, writer: &mut Writer) -> (status: ShellStatus)
        ensures
            (final(self)@, final(writer)@, status) == old(self)@.submit(old(writer)@),
    {
        if self.line.len() == 0 {
            return ShellStatus::Running;
        }
        let owned_line = {
            let slice = self.line.as_slice();
            match utf8_text(slice) {
                None => {
                    print_error(writer, "Input is not valid UTF-8\n");
                    return ShellStatus::Running;
                },
                Some(_) => {},
            }
            let (start, end) = trim_bounds(slice);
            if start >= end {
                return ShellStatus::Running;
            }
            let mut owned: FixedString<128> = FixedString::new();
            let _ = owned.push_bytes(part(slice, start, end));
            assert(owned@ =~= stored_line(trimmed(slice@)));
            owned
        };
        let line = owned_line.as_str();
        self.history.push(line);
        self.reset_history_tracking();
        match command_parser(line) {
            Ok(command) => {
                match execute_command(writer, command) {
                    CommandResult::Success => ShellStatus::Running,
                    CommandResult::Exit => self.shutdown(),
                    CommandResult::Error(err) => {
                        report_error(writer, err);
                        ShellStatus::Running
                    },
                }
            },
            Err(err) => {
                report_error(writer, err);
                ShellStatus::Running
            },
        }
    }

    /// The status that stops the shell for good.
    pub fn shutdown(&self) -> (status: ShellStatus)
        ensures
            status == ShellStatus::Stopped,
    {
        ShellStatus::Stopped
    }
}

/// Greets, prints the version and a line feed, and hands over a new shell
/// with the prompt out.
pub fn bootstrap(writer: &mut Writer, os_version: &str) -> (shell: Shell)
    ensures
        shell@ == (ShellView {
            line: Seq::empty(),
            extended_prefix: false,
            lines: Seq::empty(),
            cursor: 0,
            saved: Seq::empty(),
            saved_active: false,
        }),
        final(writer)@ == old(writer)@.write_all(
            "Hello, from Shell!\n".spec_bytes(),
            spec_color_code(Color::LightGreen, Color::Black),
        ).write_all(os_version.spec_bytes(), spec_color_code(Color::LightCyan, Color::Black)).write_all(
            "\n".spec_bytes(),
            white(),
        ).write_all("shell> ".spec_bytes(), yellow()),
{
    print_hello(writer);
    print_os_version(writer, os_version);
    print_string(writer, "\n", get_color_code(Color::White, Color::Black));
    let shell = Shell::new();
    print_prompt(writer);
    shell
}

} // verus!
