//! The encoder's command line.

use vstd::prelude::*;
use crate::text::texts;

verus! {

/// A command to run: the program, its arguments and its working directory.
#[derive(Debug, PartialEq, Eq)]
pub struct StreamCommand {
    pub program: String,
    pub args: Vec<String>,
    pub cwd: String,
}

/// Where the stream is sent for the key `stream_key`.
pub open spec fn stream_destination(stream_key: Seq<char>) -> Seq<char> {
    "rtmp://live-ber.twitch.tv/app/"@ + stream_key
}

/// The encoder's arguments: read the manifest `concat_file` at its native
/// rate, encode, and send the result to the destination of `stream_key`.
pub open spec fn stream_args(concat_file: Seq<char>, stream_key: Seq<char>) -> Seq<Seq<char>> {
    seq![
        "-re"@,
        "-f"@,
        "concat"@,
        "-"@,
        concat_file,
        "-preset"@,
        "veryfast"@,
        "-b:v"@,
        "6000k"@,
        "-maxrate"@,
        "6000k"@,
        "-bufsize"@,
        "6000k"@,
        "-pix_fmt"@,
        "yuv420p"@,
        "-g"@,
        "50"@,
        "-c:a"@,
        "aac"@,
        "-b:a"@,
        "160k"@,
        "-ac"@,
        "2"@,
        "-ar"@,
        "44100"@,
        "-f"@,
        "flv"@,
        stream_destination(stream_key),
    ]
}

/// Appends a copy of `arg` to `args`.
fn push_arg(args: &mut Vec<String>, arg: &str)
    ensures
        texts(final(args)@) == texts(old(args)@).push(arg@),
{
    args.push(arg.to_owned());
    assert(texts(args@) =~= texts(old(args)@).push(arg@));
}

/// The command that streams the manifest `concat_file` to the destination
/// of `stream_key`, run in `cwd`.
pub fn stream_command(concat_file: &str, stream_key: &str, cwd: &str) -> (command: StreamCommand)
    ensures
        command.program@ == "ffmpeg"@,
        texts(command.args@) == stream_args(concat_file@, stream_key@),
        command.cwd@ == cwd@,
{
    let mut destination = "rtmp://live-ber.twitch.tv/app/".to_owned();
    destination.append(stream_key);
    let mut args: Vec<String> = Vec::new();
    assert(texts(args@) =~= Seq::<Seq<char>>::empty());
    push_arg(&mut args, "-re");
    push_arg(&mut args, "-f");
    push_arg(&mut args, "concat");
    push_arg(&mut args, "-");
    push_arg(&mut args, concat_file);
    push_arg(&mut args, "-preset");
    push_arg(&mut args, "veryfast");
    push_arg(&mut args, "-b:v");
    push_arg(&mut args, "6000k");
    push_arg(&mut args, "-maxrate");
    push_arg(&mut args, "6000k");
    push_arg(&mut args, "-bufsize");
    push_arg(&mut args, "6000k");
    push_arg(&mut args, "-pix_fmt");
    push_arg(&mut args, "yuv420p");
    push_arg(&mut args, "-g");
    push_arg(&mut args, "50");
    push_arg(&mut args, "-c:a");
    push_arg(&mut args, "aac");
    push_arg(&mut args, "-b:a");
    push_arg(&mut args, "160k");
    push_arg(&mut args, "-ac");
    push_arg(&mut args, "2");
    push_arg(&mut args, "-ar");
    push_arg(&mut args, "44100");
    push_arg(&mut args, "-f");
    push_arg(&mut args, "flv");
    push_arg(&mut args, destination.as_str());
    assert(texts(args@) =~= stream_args(concat_file@, stream_key@));
    StreamCommand { program: "ffmpeg".to_owned(), args, cwd: cwd.to_owned() }
}

} // verus!
