//! The line protocol of a session with a remote shell: what is written to the shell for a
//! command, and what a read of its output means.

use crate::text::{nul, trim_reply, trimmed, trimmed_end};
use vstd::prelude::*;
use vstd::string::*;
use vstd::utf8::{decode_utf8, valid_utf8};

verus! {

/// The number of bytes that one read takes from the shell at most.
pub const BUFFER_SIZE: usize = 4096;

/// The text that `String::from_utf8_lossy` makes of the bytes.
pub uninterp spec fn utf8_lossy(bytes: Seq<u8>) -> Seq<char>;

/// `String::from_utf8_lossy`: the bytes read as UTF-8, each sequence that is not valid
/// replaced by U+FFFD. Bytes that are valid UTF-8 give the text that they encode.
#[verifier::external_body]
fn from_utf8_lossy(bytes: &[u8]) -> (text: String)
    ensures
        text@ == utf8_lossy(bytes@),
        valid_utf8(bytes@) ==> text@ == decode_utf8(bytes@),
{
    String::from_utf8_lossy(bytes).into_owned()
}

/// The protocol side of a session with the shell of one host.
#[derive(Debug)]
pub struct Ssh {
    /// The address of the host, as the remote shell client takes it.
    pub host_name: String,
    /// What stands before each command that is written.
    pub prefix: String,
}

impl Ssh {
    /// A session with the host addressed as `host_name`, with nothing before its commands.
    pub fn new(host_name: &str) -> (session: Self)
        ensures
            session.host_name@ == host_name@,
            session.prefix@ == Seq::<char>::empty(),
    {
        Ssh { host_name: host_name.to_owned(), prefix: String::new() }
    }

    /// The arguments with which the remote shell client is started: no terminal, the
    /// host, and `sh` as the command.
    pub fn spawn_args(&self) -> (args: Vec<String>)
        ensures
            args@.len() == 3,
            args@[0]@ == "-T"@,
            args@[1]@ == self.host_name@,
            args@[2]@ == "sh"@,
    {
        let mut args: Vec<String> = Vec::new();
        args.push("-T".to_owned());
        args.push(self.host_name.clone());
        args.push("sh".to_owned());
        args
    }

    /// The line that is written to the shell for the command `cmd`: the prefix, the
    /// command, a line feed.
    pub fn write(&self, cmd: &str) -> (line: String)
        ensures
            line@ == self.prefix@ + cmd@ + seq!['\n'],
    {
        proof {
            reveal_strlit("\n");
        }
        assert("\n"@ == seq!['\n']);
        let mut line = self.prefix.clone();
        line.append(cmd);
        line.append("\n");
        line
    }

    /// What one read of the shell's output says, `buf` being the whole buffer that was read
    /// into: its bytes as text, invalid bytes replaced, without the NUL characters at the end
    /// and without the white space around what is left.
    pub fn read(&self, buf: &[u8]) -> (reply: String)
        ensures
            reply@ == trimmed(trimmed_end(utf8_lossy(buf@), nul())),
            valid_utf8(buf@) ==> reply@ == trimmed(trimmed_end(decode_utf8(buf@), nul())),
    {
        let text = from_utf8_lossy(buf);
        trim_reply(text.as_str())
    }

    /// The line that is written to the shell when the session ends: the command `exit`.
    pub fn close(&self) -> (line: String)
        ensures
            line@ == self.prefix@ + "exit"@ + seq!['\n'],
    {
        self.write("exit")
    }
}

} // verus!
