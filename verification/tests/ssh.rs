use ash::ssh::{Ssh, BUFFER_SIZE};

fn buffer(bytes: &[u8]) -> Vec<u8> {
    let mut buf = vec![0u8; BUFFER_SIZE];
    buf[..bytes.len()].copy_from_slice(bytes);
    buf
}

#[test]
fn buffer_size_is_4096() {
    assert_eq!(BUFFER_SIZE, 4096);
}

#[test]
fn new_session_has_no_prefix() {
    let s = Ssh::new("ubuntu@alpha.aws");
    assert_eq!(s.host_name, "ubuntu@alpha.aws");
    assert_eq!(s.prefix, "");
}

#[test]
fn spawn_args_ask_for_a_shell_without_terminal() {
    let s = Ssh::new("ubuntu@alpha.aws");
    assert_eq!(s.spawn_args(), vec!["-T", "ubuntu@alpha.aws", "sh"]);
}

#[test]
fn write_frames_the_command_as_a_line() {
    let s = Ssh::new("h");
    assert_eq!(s.write("pwd"), "pwd\n");
    assert_eq!(s.write(""), "\n");
    assert_eq!(s.write("ls -pa1 /home"), "ls -pa1 /home\n");
}

#[test]
fn write_puts_the_prefix_before_the_command() {
    let s = Ssh { host_name: "h".to_string(), prefix: "sudo docker exec c ".to_string() };
    assert_eq!(s.write("pwd"), "sudo docker exec c pwd\n");
}

#[test]
fn close_writes_exit() {
    assert_eq!(Ssh::new("h").close(), "exit\n");
    let s = Ssh { host_name: "h".to_string(), prefix: "p ".to_string() };
    assert_eq!(s.close(), "p exit\n");
}

#[test]
fn read_strips_the_padding_and_the_white_space() {
    let s = Ssh::new("h");
    assert_eq!(s.read(&buffer(b"/home/ubuntu\n")), "/home/ubuntu");
    assert_eq!(s.read(&buffer(b"  ./\n../\nsub/\nfile.txt\r\n\n")), "./\n../\nsub/\nfile.txt");
    assert_eq!(s.read(&buffer(b"")), "");
    assert_eq!(s.read(&buffer(b" \n\t ")), "");
    assert_eq!(s.read(b"plain"), "plain");
    assert_eq!(s.read(b""), "");
}

#[test]
fn read_keeps_nul_and_white_space_inside() {
    let s = Ssh::new("h");
    assert_eq!(s.read(&buffer(b"a\0b c\n")), "a\0b c");
    assert_eq!(s.read(&buffer(b"\0a")), "\0a");
    assert_eq!(s.read(b"a \0 \0\0"), "a \0");
    assert_eq!(s.read(b" \0 "), "\0");
}

#[test]
fn read_replaces_bytes_that_are_not_utf8() {
    let s = Ssh::new("h");
    assert_eq!(s.read(&buffer(b"a\xffb\n")), "a\u{fffd}b");
    assert_eq!(s.read(&buffer(b"caf\xc3\xa9\n")), "caf\u{e9}");
    assert_eq!(s.read(b"caf\xc3"), "caf\u{fffd}");
}

#[test]
fn read_of_a_full_buffer_keeps_all_of_it() {
    let s = Ssh::new("h");
    let full = vec![b'x'; BUFFER_SIZE];
    assert_eq!(s.read(&full).len(), BUFFER_SIZE);
}
