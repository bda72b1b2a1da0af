//! Typed yt-dlp broker helpers for the SoundCloud download fallback.

use vstd::prelude::*;
use vstd::slice::slice_subrange;
use vstd::string::*;

use crate::error::PluginError;
use crate::json::{
    append_json, append_json_number, append_json_option, json_number, json_option, json_text,
};
use crate::text::{
    chars_of, lemma_split, opt_text, same_text, split, split_chars, string_of, texts, trim, trim_chars,
    white,
};

verus! {

/// A request for the host's yt-dlp broker. It names what is wanted; how the
/// process is run is up to the host.
#[derive(Debug)]
pub enum YtDlpRequest {
    Download {
        url: String,
        quality: Option<u32>,
        format: Option<String>,
        output_dir: String,
        audio_only: bool,
    },
}

/// The JSON text of a request: what is wanted, and nothing of how the
/// process is run.
pub open spec fn ytdlp_text(
    url: Seq<char>,
    quality: Option<u64>,
    format: Option<Seq<char>>,
    output_dir: Seq<char>,
    audio_only: bool,
) -> Seq<char> {
    "{\"action\":\"download\",\"url\":"@ + json_text(url) + ",\"quality\":"@ + json_number(quality)
        + ",\"format\":"@ + json_option(format) + ",\"output_dir\":"@ + json_text(output_dir)
        + ",\"audio_only\":"@ + (if audio_only {
        "true"@
    } else {
        "false"@
    }) + "}"@
}

/// The JSON text of the request to download the audio of `url`.
pub open spec fn download_text(
    url: Seq<char>,
    format: Seq<char>,
    output_dir: Seq<char>,
) -> Seq<char> {
    ytdlp_text(url, None, Some(audio_format(format)), output_dir, true)
}

impl YtDlpRequest {
    /// The request in JSON.
    pub fn to_json(&self) -> (r: Result<String, PluginError>)
        ensures
            r is Ok,
            match *self {
                YtDlpRequest::Download { url, quality, format, output_dir, audio_only } => r->Ok_0@
                    == ytdlp_text(
                    url@,
                    match quality {
                        Some(q) => Some(q as u64),
                        None => None,
                    },
                    opt_text(format),
                    output_dir@,
                    audio_only,
                ),
            },
    {
        let YtDlpRequest::Download { url, quality, format, output_dir, audio_only } = self;
        let mut out = "{\"action\":\"download\",\"url\":".to_owned();
        append_json(&mut out, url.as_str())?;
        out.append(",\"quality\":");
        append_json_number(
            &mut out,
            match quality {
                Some(q) => Some(*q as u64),
                None => None,
            },
        );
        out.append(",\"format\":");
        append_json_option(&mut out, format)?;
        out.append(",\"output_dir\":");
        append_json(&mut out, output_dir.as_str())?;
        out.append(",\"audio_only\":");
        if *audio_only {
            out.append("true");
        } else {
            out.append("false");
        }
        out.append("}");
        Ok(out)
    }
}

/// What the yt-dlp process left behind.
#[derive(Debug)]
pub struct YtDlpResponse {
    pub exit_code: i32,
    pub stdout: String,
    pub stderr: String,
}

/// The audio formats that yt-dlp is asked for.
pub open spec fn known_audio_format(format: Seq<char>) -> bool {
    ||| format == "best"@
    ||| format == "flac"@
    ||| format == "m4a"@
    ||| format == "mp3"@
    ||| format == "opus"@
    ||| format == "vorbis"@
    ||| format == "wav"@
}

/// The format to ask for: `aac` and `ogg` by the names that yt-dlp has for
/// them, an unknown one as `mp3`.
pub open spec fn audio_format(format: Seq<char>) -> Seq<char> {
    if format == "aac"@ {
        "m4a"@
    } else if format == "ogg"@ {
        "vorbis"@
    } else if known_audio_format(format) {
        format
    } else {
        "mp3"@
    }
}

/// Whatever format was wanted, one that yt-dlp knows is asked for, and a
/// format that is asked for stays itself: `aac` is asked for as `m4a`, `ogg` as
/// `vorbis`, a format that yt-dlp knows as it is, and any other as `mp3`.
pub proof fn law_audio_format_is_known(format: Seq<char>)
    ensures
        known_audio_format(audio_format(format)),
        audio_format(audio_format(format)) == audio_format(format),
        ({
            let stays = format == "best"@ || format == "flac"@ || format == "m4a"@ || format
                == "mp3"@ || format == "opus"@ || format == "vorbis"@ || format == "wav"@;
            &&& stays ==> audio_format(format) == format
            &&& format == "aac"@ ==> audio_format(format) == "m4a"@
            &&& format == "ogg"@ ==> audio_format(format) == "vorbis"@
            &&& !stays && format != "aac"@ && format != "ogg"@ ==> audio_format(format) == "mp3"@
        }),
{
    reveal_strlit("aac");
    reveal_strlit("ogg");
    reveal_strlit("best");
    reveal_strlit("flac");
    reveal_strlit("m4a");
    reveal_strlit("mp3");
    reveal_strlit("opus");
    reveal_strlit("vorbis");
    reveal_strlit("wav");
    assert("m4a"@[0] != "aac"@[0]);
    assert("mp3"@[0] != "aac"@[0]);
    assert("vorbis"@.len() != "aac"@.len());
    assert("best"@.len() != "aac"@.len());
    assert("flac"@.len() != "aac"@.len());
    assert("opus"@.len() != "aac"@.len());
    assert("wav"@[0] != "aac"@[0]);
    assert("m4a"@[0] != "ogg"@[0]);
    assert("mp3"@[0] != "ogg"@[0]);
    assert("vorbis"@.len() != "ogg"@.len());
    assert("best"@.len() != "ogg"@.len());
    assert("flac"@.len() != "ogg"@.len());
    assert("opus"@.len() != "ogg"@.len());
    assert("wav"@[0] != "ogg"@[0]);
    assert("aac"@[0] != "ogg"@[0]);
}

/// The request to download the audio of `url` into `output_dir`.
pub fn build_ytdlp_download_request(url: &str, format: &str, output_dir: &str) -> (r: YtDlpRequest)
    ensures
        r matches YtDlpRequest::Download { url: u, quality, format: f, output_dir: dir, audio_only }
            && u@ == url@ && quality is None && (f matches Some(f) && f@ == audio_format(format@))
            && dir@ == output_dir@ && audio_only,
{
    YtDlpRequest::Download {
        url: url.to_owned(),
        quality: None,
        format: Some(normalize_audio_format(format).to_owned()),
        output_dir: output_dir.to_owned(),
        audio_only: true,
    }
}

impl YtDlpResponse {
    /// The standard output of a process that succeeded, or else an error with
    /// the shortened standard error output.
    pub fn into_stdout(self) -> (r: Result<String, PluginError>)
        ensures
            self.exit_code == 0 ==> r == Ok::<String, PluginError>(self.stdout),
            self.exit_code != 0 ==> (r matches Err(PluginError::Subprocess { exit_code, stderr })
                && exit_code == self.exit_code && stderr@ == shortened_stderr(self.stderr@)),
    {
        if self.exit_code != 0 {
            return Err(
                PluginError::Subprocess {
                    exit_code: self.exit_code,
                    stderr: truncate_stderr(self.stderr.as_str()),
                },
            );
        }
        Ok(self.stdout)
    }
}

/// The last line that is not blank, without the white space around it.
pub open spec fn last_line(lines: Seq<Seq<char>>) -> Option<Seq<char>>
    decreases lines.len(),
{
    if lines.len() == 0 {
        None
    } else if trim(lines.last()).len() > 0 {
        Some(trim(lines.last()))
    } else {
        last_line(lines.drop_last())
    }
}

/// The path of the downloaded file: yt-dlp prints it last.
pub fn parse_download_path_from_stdout(stdout: &str) -> (r: Result<String, PluginError>)
    ensures
        match last_line(split(stdout@, '\n')) {
            Some(path) => r matches Ok(p) && p@ == path,
            None => r matches Err(PluginError::NoStreamAvailable),
        },
{
    let cs = chars_of(stdout);
    let lines = split_chars(cs.as_slice(), '\n');
    let ghost model = split(stdout@, '\n');
    let mut i: usize = lines.len();
    assert(model.take(model.len() as int) =~= model);
    while i > 0
        invariant
            i <= lines.len(),
            texts(lines@) == model,
            model == split(stdout@, '\n'),
            last_line(model.take(i as int)) == last_line(model),
        decreases i,
    {
        let ghost part = model.take(i as int);
        assert(part.last() == lines@[i - 1]@);
        assert(part.drop_last() =~= model.take(i - 1));
        let line = trim_chars(lines[i - 1].as_slice());
        if line.len() > 0 {
            return Ok(string_of(line));
        }
        i = i - 1;
    }
    Err(PluginError::NoStreamAvailable)
}

/// There is a path exactly where the output holds anything but white space,
/// and it is not empty.
pub proof fn law_download_path(stdout: Seq<char>)
    ensures
        last_line(split(stdout, '\n')) is Some <==> !crate::text::blank(stdout),
        last_line(split(stdout, '\n')) matches Some(path) ==> path.len() > 0,
{
    lemma_last_line(split(stdout, '\n'));
    lemma_split(stdout, '\n');
    lemma_blank_join(split(stdout, '\n'));
}

/// `path` stands in `text` at `at`, on the line that starts at `line`, with
/// nothing but white space before it on that line, and nothing but white space
/// behind it in the whole text.
pub open spec fn stands_last(text: Seq<char>, path: Seq<char>, line: int, at: int) -> bool {
    &&& 0 <= line <= at
    &&& at + path.len() <= text.len()
    &&& text.subrange(at, at + path.len()) == path
    &&& line == 0 || text[line - 1] == '\n'
    &&& forall|i: int| line <= i < at ==> white(#[trigger] text[i])
    &&& forall|i: int| at + path.len() <= i < text.len() ==> white(#[trigger] text[i])
}

/// The path is the last line that is not blank, without the white space around
/// it: nothing but white space stands behind it in the output, and nothing but
/// white space before it on its line.
pub proof fn law_download_path_is_the_last_line(stdout: Seq<char>)
    requires
        last_line(split(stdout, '\n')) is Some,
    ensures
        ({
            let path = last_line(split(stdout, '\n'))->0;
            &&& path.len() > 0
            &&& !white(path[0])
            &&& !white(path.last())
            &&& !path.contains('\n')
            &&& exists|line: int, at: int| stands_last(stdout, path, line, at)
        }),
{
    lemma_split(stdout, '\n');
    lemma_last_line_place(split(stdout, '\n'), stdout);
}

/// Where the last line that is not blank stands in the lines joined.
proof fn lemma_last_line_place(lines: Seq<Seq<char>>, text: Seq<char>)
    requires
        lines.len() >= 1,
        text == crate::text::join(lines, '\n'),
        last_line(lines) is Some,
        forall|i: int| 0 <= i < lines.len() ==> !(#[trigger] lines[i]).contains('\n'),
    ensures
        ({
            let path = last_line(lines)->0;
            &&& path.len() > 0
            &&& !white(path[0])
            &&& !white(path.last())
            &&& !path.contains('\n')
            &&& exists|line: int, at: int| stands_last(text, path, line, at)
        }),
    decreases lines.len(),
{
    let last = lines.last();
    let before = lines.drop_last();
    let path = last_line(lines)->0;
    assert(lines[lines.len() - 1] == last);
    let head = if lines.len() == 1 {
        Seq::<char>::empty()
    } else {
        crate::text::join(before, '\n').push('\n')
    };
    assert(text =~= head + last);
    if trim(last).len() > 0 {
        lemma_trimmed_end(head, last);
    } else {
        assert(lines.len() > 1);
        let front = crate::text::join(before, '\n');
        assert forall|i: int| 0 <= i < before.len() implies !(#[trigger] before[i]).contains(
            '\n',
        ) by {
            assert(before[i] == lines[i]);
        }
        lemma_last_line_place(before, front);
        let (line, at) = choose|line: int, at: int| stands_last(front, path, line, at);
        crate::text::lemma_trim_blank(last);
        lemma_blank_line_behind(front, path, line, at, last);
    }
}

/// What is trimmed of the last line stands last.
proof fn lemma_trimmed_end(head: Seq<char>, last: Seq<char>)
    requires
        trim(last).len() > 0,
        !last.contains('\n'),
        head.len() > 0 ==> head.last() == '\n',
    ensures
        !white(trim(last)[0]),
        !white(trim(last).last()),
        !trim(last).contains('\n'),
        exists|line: int, at: int| stands_last(head + last, trim(last), line, at),
{
    let text = head + last;
    let path = trim(last);
    let front = crate::text::trim_start(last);
    crate::text::lemma_trim_start(last);
    crate::text::lemma_trim_end(front);
    let skipped = last.len() - front.len();
    let line = head.len() as int;
    let at = line + skipped;
    assert(path[0] == front[0]);
    assert(text.subrange(at, at + path.len()) =~= path);
    assert forall|i: int| at + path.len() <= i < text.len() implies white(#[trigger] text[i]) by {
        assert(front[i - at] == text[i]);
    }
    assert forall|i: int| line <= i < at implies white(#[trigger] text[i]) by {
        assert(last[i - line] == text[i]);
    }
    if path.contains('\n') {
        let i = choose|i: int| 0 <= i < path.len() && path[i] == '\n';
        assert(last[skipped + i] == '\n');
    }
    assert(line > 0 ==> text[line - 1] == head.last());
    assert(stands_last(text, path, line, at));
}

/// A blank line behind it changes nothing.
proof fn lemma_blank_line_behind(
    front: Seq<char>,
    path: Seq<char>,
    line: int,
    at: int,
    last: Seq<char>,
)
    requires
        stands_last(front, path, line, at),
        path.len() > 0,
        crate::text::blank(last),
    ensures
        stands_last(front.push('\n') + last, path, line, at),
{
    let text = front.push('\n') + last;
    assert(text.subrange(at, at + path.len()) =~= front.subrange(at, at + path.len()));
    assert forall|i: int| at + path.len() <= i < text.len() implies white(#[trigger] text[i]) by {
        if i < front.len() {
            assert(text[i] == front[i]);
        } else if i > front.len() {
            assert(text[i] == last[i - front.len() - 1]);
        }
    }
    assert forall|i: int| line <= i < at implies white(#[trigger] text[i]) by {
        assert(text[i] == front[i]);
    }
    assert(line > 0 ==> text[line - 1] == front[line - 1]);
}

/// A line is found exactly where some line is not blank.
proof fn lemma_last_line(lines: Seq<Seq<char>>)
    ensures
        last_line(lines) is Some <==> exists|i: int|
            0 <= i < lines.len() && !crate::text::blank(#[trigger] lines[i]),
        last_line(lines) matches Some(path) ==> path.len() > 0,
    decreases lines.len(),
{
    if lines.len() > 0 {
        let before = lines.drop_last();
        lemma_last_line(before);
        crate::text::lemma_trim_blank(lines.last());
        assert(lines[lines.len() - 1] == lines.last());
        if last_line(before) is Some {
            let i = choose|i: int| 0 <= i < before.len() && !crate::text::blank(#[trigger] before[i]);
            assert(lines[i] == before[i]);
        }
        if exists|i: int| 0 <= i < lines.len() && !crate::text::blank(#[trigger] lines[i]) {
            let i = choose|i: int| 0 <= i < lines.len() && !crate::text::blank(#[trigger] lines[i]);
            if i < before.len() {
                assert(before[i] == lines[i]);
            }
        }
    }
}

/// Lines join to a blank text exactly where each of them is blank.
proof fn lemma_blank_join(lines: Seq<Seq<char>>)
    requires
        lines.len() >= 1,
    ensures
        crate::text::blank(crate::text::join(lines, '\n')) <==> forall|i: int|
            0 <= i < lines.len() ==> crate::text::blank(#[trigger] lines[i]),
    decreases lines.len(),
{
    let whole = crate::text::join(lines, '\n');
    if lines.len() == 1 {
    } else {
        let before = lines.drop_last();
        let head = crate::text::join(before, '\n');
        let tail = lines.last();
        lemma_blank_join(before);
        assert(whole == head.push('\n') + tail);
        if crate::text::blank(whole) {
            assert forall|i: int| 0 <= i < head.len() implies crate::text::white(#[trigger] head[i]) by {
                assert(whole[i] == head[i]);
            }
            assert forall|i: int| 0 <= i < tail.len() implies crate::text::white(#[trigger] tail[i]) by {
                assert(whole[head.len() + 1 + i] == tail[i]);
            }
            assert forall|i: int| 0 <= i < lines.len() implies crate::text::blank(#[trigger] lines[i]) by {
                if i < before.len() {
                    assert(before[i] == lines[i]);
                }
            }
        }
        if forall|i: int| 0 <= i < lines.len() ==> crate::text::blank(#[trigger] lines[i]) {
            assert forall|i: int| 0 <= i < before.len() implies crate::text::blank(#[trigger] before[i]) by {
                assert(lines[i] == before[i]);
            }
            assert(crate::text::blank(lines[lines.len() - 1]));
            assert forall|i: int| 0 <= i < whole.len() implies crate::text::white(#[trigger] whole[i]) by {
                if i < head.len() {
                    assert(whole[i] == head[i]);
                } else if i > head.len() {
                    assert(whole[i] == tail[i - head.len() - 1]);
                }
            }
        }
    }
}

/// The name by which yt-dlp knows an audio format.
pub fn normalize_audio_format(format: &str) -> (r: &str)
    ensures
        r@ == audio_format(format@),
{
    if same_text(format, "aac") {
        "m4a"
    } else if same_text(format, "ogg") {
        "vorbis"
    } else if same_text(format, "best") || same_text(format, "flac") || same_text(format, "m4a")
        || same_text(format, "mp3") || same_text(format, "opus") || same_text(format, "vorbis")
        || same_text(format, "wav") {
        format
    } else {
        "mp3"
    }
}

/// The most characters of a process's error output that are kept.
pub open spec fn max_stderr_chars() -> int {
    512
}

/// An error output without the white space around it, and cut off behind its
/// first 512 characters with an ellipsis.
pub open spec fn shortened_stderr(stderr: Seq<char>) -> Seq<char> {
    let trimmed = trim(stderr);
    if trimmed.len() <= max_stderr_chars() {
        trimmed
    } else {
        trimmed.take(max_stderr_chars()).push('\u{2026}')
    }
}

/// What is kept of an error output stands in it with nothing but white space
/// around it. Up to 512 characters it is whole, and of more the first 512 stay,
/// with an ellipsis behind them.
pub proof fn law_shortened_stderr(stderr: Seq<char>)
    ensures
        exists|from: int, to: int|
            {
                let whole = #[trigger] stderr.subrange(from, to);
                &&& 0 <= from <= to <= stderr.len()
                &&& forall|i: int|
                    0 <= i < from ==> crate::text::white(#[trigger] stderr[i])
                &&& forall|i: int|
                    to <= i < stderr.len() ==> crate::text::white(#[trigger] stderr[i])
                &&& whole.len() > 0 ==> !crate::text::white(whole[0]) && !crate::text::white(
                    whole.last(),
                )
                &&& whole.len() <= 512 ==> shortened_stderr(stderr) == whole
                &&& whole.len() > 512 ==> shortened_stderr(stderr) == whole.take(512).push(
                    '\u{2026}',
                )
            },
{
    let front = crate::text::trim_start(stderr);
    crate::text::lemma_trim_start(stderr);
    crate::text::lemma_trim_end(front);
    let from = stderr.len() - front.len();
    let to = from + trim(stderr).len();
    let whole = stderr.subrange(from, to);
    assert(whole =~= trim(stderr));
    assert(whole.len() > 0 ==> whole[0] == front[0]);
    assert forall|i: int| to <= i < stderr.len() implies crate::text::white(#[trigger] stderr[i]) by {
        assert(front[i - from] == stderr[i]);
    }
}

/// Trim an error output and shorten it.
fn truncate_stderr(stderr: &str) -> (r: String)
    ensures
        r@ == shortened_stderr(stderr@),
{
    let cs = chars_of(stderr);
    let trimmed = trim_chars(cs.as_slice());
    if trimmed.len() <= 512 {
        string_of(trimmed)
    } else {
        let kept = slice_subrange(trimmed, 0, 512);
        assert(kept@ =~= trimmed@.take(512));
        let mut out = string_of(kept);
        out.push('\u{2026}');
        out
    }
}

} // verus!
