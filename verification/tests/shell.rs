use kernel_core::parser::ParseError;
use kernel_core::shell::{
    bootstrap, command_parser, execute_command, print_command_output, report_error, CommandError,
    CommandResult, CommandToExecute, HistoryKey, Shell, ShellStatus,
};
use kernel_core::vga_buffer::{ColorCode, Writer};

fn row_text(writer: &Writer, row: usize) -> String {
    let mut text = String::new();
    for column in 0..80 {
        text.push(writer.cell(row, column).ascii_character as char);
    }
    text.trim_end().to_string()
}

fn scancode_for(byte: u8) -> u8 {
    for sc in 0u8..=255 {
        if kernel_core::vga_buffer::scancode_to_ascii(sc) == Some(byte) {
            return sc;
        }
    }
    panic!("no key gives {:#x}", byte);
}

fn type_text(shell: &mut Shell, writer: &mut Writer, text: &str) -> ShellStatus {
    let mut status = ShellStatus::Running;
    for byte in text.bytes() {
        status = shell.handle_scancode(writer, scancode_for(byte));
    }
    status
}

fn press(shell: &mut Shell, writer: &mut Writer, key: u8) {
    assert_eq!(shell.handle_scancode(writer, 0xE0), ShellStatus::Running);
    assert_eq!(shell.handle_scancode(writer, key), ShellStatus::Running);
}

#[test]
fn grammar_of_commands() {
    assert_eq!(command_parser("greet"), Ok(CommandToExecute::Greet { name: b"stranger".to_vec() }));
    assert_eq!(command_parser("greet  bob "), Ok(CommandToExecute::Greet { name: b"bob".to_vec() }));
    assert_eq!(command_parser("greet bob and more"), Ok(CommandToExecute::Greet { name: b"bob".to_vec() }));
    assert_eq!(command_parser("  sum 1 2"), Ok(CommandToExecute::Sum { a: 1, b: 2 }));
    assert_eq!(command_parser("sum\t-1\t+2"), Ok(CommandToExecute::Sum { a: -1, b: 2 }));
    assert_eq!(command_parser("diff 10 3"), Ok(CommandToExecute::Diff { a: 10, b: 3 }));
    assert_eq!(command_parser("min 4 -4"), Ok(CommandToExecute::Min { a: 4, b: -4 }));
    assert_eq!(command_parser("max 4 -4 9"), Ok(CommandToExecute::Max { a: 4, b: -4 }));
    assert_eq!(command_parser("exit"), Ok(CommandToExecute::Exit));
    assert_eq!(command_parser("exit now"), Ok(CommandToExecute::Exit));
}

#[test]
fn grammar_errors() {
    assert_eq!(command_parser(""), Err(CommandError::UnknownCommand));
    assert_eq!(command_parser("   "), Err(CommandError::UnknownCommand));
    assert_eq!(command_parser("help"), Err(CommandError::UnknownCommand));
    assert_eq!(command_parser("SUM 1 2"), Err(CommandError::UnknownCommand));
    assert_eq!(command_parser("summ 1 2"), Err(CommandError::UnknownCommand));
    assert_eq!(command_parser("sum"), Err(CommandError::InvalidArguments));
    assert_eq!(command_parser("sum 1"), Err(CommandError::InvalidArguments));
    assert_eq!(command_parser("sum x"), Err(CommandError::InvalidArguments));
    assert_eq!(command_parser("sum x 1"), Err(CommandError::Parse(ParseError::InvalidDigit)));
    assert_eq!(command_parser("sum 1 x"), Err(CommandError::Parse(ParseError::InvalidDigit)));
    assert_eq!(command_parser("max 1 99999999999999999999"), Err(CommandError::Parse(ParseError::InvalidDigit)));
}

#[test]
fn commands_print_their_results() {
    let mut writer = Writer::new();
    assert_eq!(execute_command(&mut writer, CommandToExecute::Sum { a: 40, b: 2 }), CommandResult::Success);
    assert_eq!(execute_command(&mut writer, CommandToExecute::Diff { a: 1, b: 3 }), CommandResult::Success);
    assert_eq!(execute_command(&mut writer, CommandToExecute::Min { a: 7, b: -7 }), CommandResult::Success);
    assert_eq!(execute_command(&mut writer, CommandToExecute::Max { a: 7, b: -7 }), CommandResult::Success);
    assert_eq!(
        execute_command(&mut writer, CommandToExecute::Greet { name: b"world".to_vec() }),
        CommandResult::Success
    );
    assert_eq!(execute_command(&mut writer, CommandToExecute::Exit), CommandResult::Exit);
    assert_eq!(row_text(&writer, 0), "42");
    assert_eq!(row_text(&writer, 1), "-2");
    assert_eq!(row_text(&writer, 2), "-7");
    assert_eq!(row_text(&writer, 3), "7");
    assert_eq!(row_text(&writer, 4), "Hello, world!");
    assert_eq!(row_text(&writer, 5), "Exiting shell...");
    assert_eq!(writer.cell(0, 0).color_code, ColorCode(0x0F));
    assert_eq!((writer.row(), writer.column()), (6, 0));
}

#[test]
fn arithmetic_that_does_not_fit_fails() {
    let mut writer = Writer::new();
    assert_eq!(
        execute_command(&mut writer, CommandToExecute::Sum { a: i64::MAX, b: 1 }),
        CommandResult::Error(CommandError::ExecutionFailed)
    );
    assert_eq!(
        execute_command(&mut writer, CommandToExecute::Diff { a: i64::MIN, b: 1 }),
        CommandResult::Error(CommandError::ExecutionFailed)
    );
    assert_eq!(
        execute_command(&mut writer, CommandToExecute::Diff { a: 0, b: i64::MIN }),
        CommandResult::Error(CommandError::ExecutionFailed)
    );
    assert_eq!((writer.row(), writer.column()), (0, 0));
    assert_eq!(
        execute_command(&mut writer, CommandToExecute::Sum { a: i64::MAX, b: 0 }),
        CommandResult::Success
    );
    assert_eq!(
        execute_command(&mut writer, CommandToExecute::Diff { a: -1, b: i64::MIN }),
        CommandResult::Success
    );
    assert_eq!(row_text(&writer, 0), "9223372036854775807");
    assert_eq!(row_text(&writer, 1), "9223372036854775807");
}

#[test]
fn long_greeting_is_cut_at_64_bytes() {
    let mut writer = Writer::new();
    let name = vec![b'a'; 100];
    assert_eq!(execute_command(&mut writer, CommandToExecute::Greet { name }), CommandResult::Success);
    let expected = format!("Hello, {}", "a".repeat(57));
    assert_eq!(row_text(&writer, 0), expected);
    assert_eq!((writer.row(), writer.column()), (0, 64));
}

#[test]
fn errors_are_reported_in_light_red() {
    let mut writer = Writer::new();
    report_error(&mut writer, CommandError::UnknownCommand);
    report_error(&mut writer, CommandError::InvalidArguments);
    report_error(&mut writer, CommandError::ExecutionFailed);
    report_error(&mut writer, CommandError::Parse(ParseError::EmptyInput));
    assert_eq!(row_text(&writer, 0), "Unknown command");
    assert_eq!(row_text(&writer, 1), "Invalid arguments for command");
    assert_eq!(row_text(&writer, 2), "Command failed to execute");
    assert_eq!(row_text(&writer, 3), "input string is empty");
    assert_eq!(writer.cell(0, 0).color_code, ColorCode(0x0C));
    assert_eq!(writer.row(), 4);
    print_command_output(&mut writer, "ok");
    assert_eq!(writer.cell(4, 0).color_code, ColorCode(0x0F));
}

#[test]
fn bootstrap_prints_banner_and_prompt() {
    let mut writer = Writer::new();
    let shell = bootstrap(&mut writer, "0.1.0");
    assert_eq!(row_text(&writer, 0), "Hello, from Shell!");
    assert_eq!(row_text(&writer, 1), "0.1.0");
    assert_eq!(row_text(&writer, 2), "shell>");
    assert_eq!(writer.cell(0, 0).color_code, ColorCode(0x0A));
    assert_eq!(writer.cell(1, 0).color_code, ColorCode(0x0B));
    assert_eq!(writer.cell(2, 0).color_code, ColorCode(0x0E));
    assert_eq!((writer.row(), writer.column()), (2, 7));
    assert_eq!(shell.current_line(), "");
}

#[test]
fn typed_line_runs_on_enter() {
    let mut writer = Writer::new();
    let mut shell = Shell::new();
    assert_eq!(type_text(&mut shell, &mut writer, "sum 2 3"), ShellStatus::Running);
    assert_eq!(shell.current_line(), "sum 2 3");
    assert_eq!(row_text(&writer, 0), "sum 2 3");
    assert_eq!(type_text(&mut shell, &mut writer, "\n"), ShellStatus::Running);
    assert_eq!(row_text(&writer, 1), "5");
    assert_eq!(row_text(&writer, 2), "shell>");
    assert_eq!(shell.current_line(), "");
}

#[test]
fn backspace_edits_the_line() {
    let mut writer = Writer::new();
    let mut shell = Shell::new();
    type_text(&mut shell, &mut writer, "sun");
    shell.handle_scancode(&mut writer, 0x0E);
    type_text(&mut shell, &mut writer, "m 1 1\n");
    assert_eq!(row_text(&writer, 0), "sum 1 1");
    assert_eq!(row_text(&writer, 1), "2");
    shell.handle_scancode(&mut writer, 0x0E);
    assert_eq!(shell.current_line(), "");
    assert_eq!(row_text(&writer, 2), "shell>");
}

#[test]
fn unknown_and_blank_lines() {
    let mut writer = Writer::new();
    let mut shell = Shell::new();
    type_text(&mut shell, &mut writer, "nope\n");
    assert_eq!(row_text(&writer, 1), "Unknown command");
    type_text(&mut shell, &mut writer, "\n");
    type_text(&mut shell, &mut writer, "   \n");
    type_text(&mut shell, &mut writer, "sum 1\n");
    assert_eq!(row_text(&writer, 4), "shell> sum 1");
    assert_eq!(row_text(&writer, 5), "Invalid arguments for command");
    type_text(&mut shell, &mut writer, "sum 1 z\n");
    assert_eq!(row_text(&writer, 7), "input contains a non-digit character");
    assert_eq!(row_text(&writer, 8), "shell>");
}

#[test]
fn exit_stops_the_shell_without_a_prompt() {
    let mut writer = Writer::new();
    let mut shell = Shell::new();
    assert_eq!(type_text(&mut shell, &mut writer, "exit\n"), ShellStatus::Stopped);
    assert_eq!(row_text(&writer, 1), "Exiting shell...");
    assert_eq!(row_text(&writer, 2), "");
    assert_eq!(shell.shutdown(), ShellStatus::Stopped);
}

#[test]
fn line_holds_128_bytes() {
    let mut writer = Writer::new();
    let mut shell = Shell::new();
    for _ in 0..200 {
        shell.handle_input_byte(&mut writer, b'a');
    }
    assert_eq!(shell.current_line().len(), 128);
    assert_eq!((writer.row(), writer.column()), (1, 48));
}

#[test]
fn arrow_keys_walk_the_history() {
    let mut writer = Writer::new();
    let mut shell = Shell::new();
    type_text(&mut shell, &mut writer, "sum 1 1\n");
    type_text(&mut shell, &mut writer, "  greet bob  \n");
    type_text(&mut shell, &mut writer, "ma");
    press(&mut shell, &mut writer, 0x48);
    assert_eq!(shell.current_line(), "greet bob");
    press(&mut shell, &mut writer, 0x48);
    assert_eq!(shell.current_line(), "sum 1 1");
    press(&mut shell, &mut writer, 0x48);
    assert_eq!(shell.current_line(), "sum 1 1");
    press(&mut shell, &mut writer, 0x50);
    assert_eq!(shell.current_line(), "greet bob");
    press(&mut shell, &mut writer, 0x50);
    assert_eq!(shell.current_line(), "ma");
    press(&mut shell, &mut writer, 0x50);
    assert_eq!(shell.current_line(), "ma");
    let row = writer.row();
    assert_eq!(row_text(&writer, row), "shell> ma");
}

#[test]
fn history_line_can_be_run_again() {
    let mut writer = Writer::new();
    let mut shell = Shell::new();
    type_text(&mut shell, &mut writer, "max 3 9\n");
    press(&mut shell, &mut writer, 0x48);
    assert_eq!(row_text(&writer, 2), "shell> max 3 9");
    type_text(&mut shell, &mut writer, "\n");
    assert_eq!(row_text(&writer, 3), "9");
    press(&mut shell, &mut writer, 0x48);
    assert_eq!(shell.current_line(), "max 3 9");
    press(&mut shell, &mut writer, 0x48);
    assert_eq!(shell.current_line(), "max 3 9");
}

#[test]
fn arrows_do_nothing_without_history() {
    let mut writer = Writer::new();
    let mut shell = Shell::new();
    type_text(&mut shell, &mut writer, "abc");
    shell.handle_history_navigation(&mut writer, HistoryKey::Up);
    shell.handle_history_navigation(&mut writer, HistoryKey::Down);
    assert_eq!(shell.current_line(), "abc");
    assert_eq!(row_text(&writer, 0), "abc");
}

#[test]
fn other_extended_keys_are_dropped() {
    let mut writer = Writer::new();
    let mut shell = Shell::new();
    shell.handle_scancode(&mut writer, 0xE0);
    shell.handle_scancode(&mut writer, 0x1E);
    assert_eq!(shell.current_line(), "");
    shell.handle_scancode(&mut writer, 0x1E);
    assert_eq!(shell.current_line(), "a");
    shell.handle_scancode(&mut writer, 0x9E);
    assert_eq!(shell.current_line(), "a");
}

#[test]
fn line_that_is_not_utf8_is_reported() {
    let mut writer = Writer::new();
    let mut shell = Shell::new();
    shell.handle_input_byte(&mut writer, 0xFF);
    assert_eq!(shell.handle_input_byte(&mut writer, b'\n'), ShellStatus::Running);
    assert_eq!(row_text(&writer, 1), "Input is not valid UTF-8");
    assert_eq!(writer.cell(1, 0).color_code, ColorCode(0x0C));
}
