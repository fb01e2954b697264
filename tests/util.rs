use namekusei::intro::Command;
use namekusei::util::get_c_string_length;

#[test]
fn c_string_length_stops_at_first_zero() {
    assert_eq!(get_c_string_length(b"abc\0def\0"), 3);
    assert_eq!(get_c_string_length(b"\0abc"), 0);
}

#[test]
fn c_string_length_without_terminator_is_whole_buffer() {
    assert_eq!(get_c_string_length(b"abcd"), 4);
    assert_eq!(get_c_string_length(b""), 0);
}

#[test]
fn exit_command_compares_equal() {
    assert_eq!(Command::Exit, Command::Exit);
}
