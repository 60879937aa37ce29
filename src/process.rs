//! Command lines of the external binaries, the names of the files that
//! belong to a task, and the verdict on a finished artifact.
use vstd::prelude::*;
use vstd::string::*;

verus! {

/// How many tasks may hold a downloader slot at once.
pub const MAX_CONCURRENT_DOWNLOADS: usize = 2;

/// How many playlist entries a metadata query asks for.
pub const MAX_PLAYLIST_ITEMS: u32 = 100;

/// Fragments the downloader fetches in parallel.
pub const DEFAULT_FRAGMENTS: u32 = 8;

/// Schema version carried by every progress payload.
pub const IPC_VERSION: u32 = 1;

/// Longest verifier diagnostic kept in an error message, in characters.
pub const MAX_DIAGNOSTIC_CHARS: usize = 1024;

/// The fixed limits of the supervisor.
pub struct Guardrails {
    pub max_concurrent_downloads: usize,
    pub max_playlist_items: u32,
    pub default_fragments: u32,
    pub ipc_version: u32,
}

impl Guardrails {
    /// The limits this build runs with.
    pub fn system() -> (r: Guardrails)
        ensures
            r.max_concurrent_downloads == MAX_CONCURRENT_DOWNLOADS,
            r.max_playlist_items == MAX_PLAYLIST_ITEMS,
            r.default_fragments == DEFAULT_FRAGMENTS,
            r.ipc_version == IPC_VERSION,
    {
        Guardrails {
            max_concurrent_downloads: MAX_CONCURRENT_DOWNLOADS,
            max_playlist_items: MAX_PLAYLIST_ITEMS,
            default_fragments: DEFAULT_FRAGMENTS,
            ipc_version: IPC_VERSION,
        }
    }
}

/// The texts of a vector of strings.
pub open spec fn texts(v: Seq<String>) -> Seq<Seq<char>> {
    v.map_values(|x: String| x@)
}

pub open spec fn opt_text(o: Option<String>) -> Option<Seq<char>> {
    match o {
        Some(s) => Some(s@),
        None => None,
    }
}

pub open spec fn digit_char(d: nat) -> char {
    if d == 0 {
        '0'
    } else if d == 1 {
        '1'
    } else if d == 2 {
        '2'
    } else if d == 3 {
        '3'
    } else if d == 4 {
        '4'
    } else if d == 5 {
        '5'
    } else if d == 6 {
        '6'
    } else if d == 7 {
        '7'
    } else if d == 8 {
        '8'
    } else {
        '9'
    }
}

/// Decimal notation of `n`, without leading zeros.
pub open spec fn decimal(n: nat) -> Seq<char>
    decreases n,
{
    if n < 10 {
        seq![digit_char(n)]
    } else {
        decimal(n / 10).push(digit_char(n % 10))
    }
}

/// The format the downloader is told to print each progress line in.
pub open spec fn progress_template() -> Seq<char> {
    "%(progress.downloaded_bytes)s|%(progress.total_bytes)s|%(progress.speed)s|%(progress.eta)s"@
}

pub open spec fn format_args(format: Option<Seq<char>>) -> Seq<Seq<char>> {
    match format {
        None => seq![],
        Some(f) => if f == "audio"@ {
            seq!["-x"@, "--audio-format"@, "mp3"@]
        } else {
            seq!["-f"@, f + "+bestaudio/best"@, "--merge-output-format"@, "mp4/mkv"@]
        },
    }
}

/// Arguments of one download run, in their fixed order.
pub open spec fn downloader_args(
    url: Seq<char>,
    cookie_file: Option<Seq<char>>,
    dir: Option<Seq<char>>,
    format: Option<Seq<char>>,
) -> Seq<Seq<char>> {
    seq![
        "--newline"@,
        "--no-warnings"@,
        "-N"@,
        decimal(DEFAULT_FRAGMENTS as nat),
        "--progress-template"@,
        progress_template(),
    ] + match cookie_file {
        Some(c) => seq!["--cookies"@, c],
        None => seq![],
    } + seq!["--add-metadata"@, "--embed-thumbnail"@] + match dir {
        Some(d) => seq!["-P"@, d],
        None => seq![],
    } + format_args(format) + seq![url]
}

/// Arguments of a metadata query.
pub open spec fn metadata_args(url: Seq<char>) -> Seq<Seq<char>> {
    seq![
        "-J"@,
        "--flat-playlist"@,
        "--no-warnings"@,
        "--playlist-end"@,
        decimal(MAX_PLAYLIST_ITEMS as nat),
        url,
    ]
}

/// Arguments of the container probe.
pub open spec fn probe_args(path: Seq<char>) -> Seq<Seq<char>> {
    seq!["-v"@, "error"@, "-show_format"@, "-show_streams"@, path]
}

pub open spec fn cookie_file_name_of(id: Seq<char>) -> Seq<char> {
    "vidflow_cookies_"@ + id + ".txt"@
}

/// Files the downloader leaves beside an unfinished artifact.
pub open spec fn fragment_files_of(path: Seq<char>) -> Seq<Seq<char>> {
    seq![path + ".part"@, path + ".ytdl"@]
}

/// The artifact passes: it exists, is not empty, and the probe exited
/// successfully without a word on stderr.
pub open spec fn integrity_ok(exists: bool, len: u64, probe_success: bool, stderr: Seq<char>) -> bool {
    exists && len > 0 && probe_success && stderr.len() == 0
}

pub open spec fn min_nat(a: nat, b: nat) -> nat {
    if a <= b {
        a
    } else {
        b
    }
}

/// Message of a failed verification.
pub open spec fn integrity_error(exists: bool, len: u64, stderr: Seq<char>) -> Seq<char> {
    if !exists {
        "Output file does not exist"@
    } else if len == 0 {
        "Output file is empty"@
    } else {
        "Corrupt media container detected: "@ + stderr.subrange(
            0,
            min_nat(stderr.len(), MAX_DIAGNOSTIC_CHARS as nat) as int,
        )
    }
}

/// Whether two texts are the same.
pub fn same_text(a: &str, b: &str) -> (r: bool)
    ensures
        r == (a@ == b@),
{
    let n = a.unicode_len();
    if n != b.unicode_len() {
        return false;
    }
    let mut i: usize = 0;
    while i < n
        invariant
            n == a@.len(),
            n == b@.len(),
            i <= n,
            forall|k: int| 0 <= k < i ==> a@[k] == b@[k],
        decreases n - i,
    {
        if a.get_char(i) != b.get_char(i) {
            return false;
        }
        i = i + 1;
    }
    proof {
        assert(a@ =~= b@);
    }
    true
}

fn digit_text(d: u64) -> (r: &'static str)
    requires
        d < 10,
    ensures
        r@ == seq![digit_char(d as nat)],
{
    proof {
        reveal_strlit("0");
        reveal_strlit("1");
        reveal_strlit("2");
        reveal_strlit("3");
        reveal_strlit("4");
        reveal_strlit("5");
        reveal_strlit("6");
        reveal_strlit("7");
        reveal_strlit("8");
        reveal_strlit("9");
    }
    let r = if d == 0 {
        "0"
    } else if d == 1 {
        "1"
    } else if d == 2 {
        "2"
    } else if d == 3 {
        "3"
    } else if d == 4 {
        "4"
    } else if d == 5 {
        "5"
    } else if d == 6 {
        "6"
    } else if d == 7 {
        "7"
    } else if d == 8 {
        "8"
    } else {
        "9"
    };
    assert(r@ =~= seq![digit_char(d as nat)]);
    r
}

/// Decimal notation of `n`.
pub fn decimal_text(n: u64) -> (r: String)
    ensures
        r@ == decimal(n as nat),
    decreases n,
{
    if n < 10 {
        String::from_str(digit_text(n))
    } else {
        let mut s = decimal_text(n / 10);
        s.append(digit_text(n % 10));
        proof {
            assert(s@ =~= decimal(n as nat));
        }
        s
    }
}

fn push_text(v: &mut Vec<String>, t: String)
    ensures
        texts(final(v)@) == texts(old(v)@).push(t@),
{
    v.push(t);
    proof {
        assert(texts(final(v)@) =~= texts(old(v)@).push(t@));
    }
}

/// Arguments of one download run: output flags, fragment count, progress
/// template, cookies file, metadata flags, output directory, format
/// selection, and the URL last.
pub fn build_downloader_args(
    url: &str,
    cookie_file: &Option<String>,
    dir: &Option<String>,
    format: &Option<String>,
) -> (r: Vec<String>)
    ensures
        texts(r@) == downloader_args(url@, opt_text(*cookie_file), opt_text(*dir), opt_text(*format)),
{
    let mut v: Vec<String> = Vec::new();
    push_text(&mut v, String::from_str("--newline"));
    push_text(&mut v, String::from_str("--no-warnings"));
    push_text(&mut v, String::from_str("-N"));
    push_text(&mut v, decimal_text(DEFAULT_FRAGMENTS as u64));
    push_text(&mut v, String::from_str("--progress-template"));
    push_text(
        &mut v,
        String::from_str(
            "%(progress.downloaded_bytes)s|%(progress.total_bytes)s|%(progress.speed)s|%(progress.eta)s",
        ),
    );
    let ghost head = texts(v@);
    if let Some(c) = cookie_file {
        push_text(&mut v, String::from_str("--cookies"));
        push_text(&mut v, c.clone());
    }
    let ghost with_cookies = texts(v@);
    push_text(&mut v, String::from_str("--add-metadata"));
    push_text(&mut v, String::from_str("--embed-thumbnail"));
    let ghost with_meta = texts(v@);
    if let Some(d) = dir {
        push_text(&mut v, String::from_str("-P"));
        push_text(&mut v, d.clone());
    }
    let ghost with_dir = texts(v@);
    if let Some(f) = format {
        if same_text(f.as_str(), "audio") {
            push_text(&mut v, String::from_str("-x"));
            push_text(&mut v, String::from_str("--audio-format"));
            push_text(&mut v, String::from_str("mp3"));
            assert(texts(v@) =~= with_dir + format_args(opt_text(*format)));
        } else {
            let sel = f.clone().concat("+bestaudio/best");
            assert(f@ != "audio"@);
            push_text(&mut v, String::from_str("-f"));
            push_text(&mut v, sel);
            push_text(&mut v, String::from_str("--merge-output-format"));
            push_text(&mut v, String::from_str("mp4/mkv"));
            assert(texts(v@) == with_dir.push("-f"@).push(f@ + "+bestaudio/best"@).push(
                "--merge-output-format"@,
            ).push("mp4/mkv"@));
            assert(texts(v@) =~= with_dir + format_args(opt_text(*format)));
        }
    } else {
        assert(texts(v@) =~= with_dir + format_args(opt_text(*format)));
    }
    let ghost with_format = texts(v@);
    push_text(&mut v, String::from_str(url));
    proof {
        assert(with_cookies =~= head + match opt_text(*cookie_file) {
            Some(c) => seq!["--cookies"@, c],
            None => seq![],
        });
        assert(with_meta =~= with_cookies + seq!["--add-metadata"@, "--embed-thumbnail"@]);
        assert(with_dir =~= with_meta + match opt_text(*dir) {
            Some(d) => seq!["-P"@, d],
            None => seq![],
        });
        assert(with_format =~= with_dir + format_args(opt_text(*format)));
        assert(texts(v@) =~= with_format + seq![url@]);
    }
    v
}

/// Arguments of a metadata query for `url`.
pub fn build_metadata_args(url: &str) -> (r: Vec<String>)
    ensures
        texts(r@) == metadata_args(url@),
{
    let mut v: Vec<String> = Vec::new();
    push_text(&mut v, String::from_str("-J"));
    push_text(&mut v, String::from_str("--flat-playlist"));
    push_text(&mut v, String::from_str("--no-warnings"));
    push_text(&mut v, String::from_str("--playlist-end"));
    push_text(&mut v, decimal_text(MAX_PLAYLIST_ITEMS as u64));
    push_text(&mut v, String::from_str(url));
    proof {
        assert(texts(v@) =~= metadata_args(url@));
    }
    v
}

/// Arguments of the container probe of the artifact at `path`.
pub fn build_probe_args(path: &str) -> (r: Vec<String>)
    ensures
        texts(r@) == probe_args(path@),
{
    let mut v: Vec<String> = Vec::new();
    push_text(&mut v, String::from_str("-v"));
    push_text(&mut v, String::from_str("error"));
    push_text(&mut v, String::from_str("-show_format"));
    push_text(&mut v, String::from_str("-show_streams"));
    push_text(&mut v, String::from_str(path));
    proof {
        assert(texts(v@) =~= probe_args(path@));
    }
    v
}

/// Name of the temporary cookies file of task `id`.
pub fn cookie_file_name(id: &str) -> (r: String)
    ensures
        r@ == cookie_file_name_of(id@),
{
    let r = String::from_str("vidflow_cookies_").concat(id).concat(".txt");
    r
}

/// The `.part` and `.ytdl` siblings of the artifact at `path`.
pub fn fragment_files(path: &str) -> (r: Vec<String>)
    ensures
        texts(r@) == fragment_files_of(path@),
{
    let mut v: Vec<String> = Vec::new();
    push_text(&mut v, String::from_str(path).concat(".part"));
    push_text(&mut v, String::from_str(path).concat(".ytdl"));
    proof {
        assert(texts(v@) =~= fragment_files_of(path@));
    }
    v
}

/// Judges a finished artifact from what was observed of it: whether the
/// file exists, its length, whether the probe exited successfully, and the
/// probe's stderr.
pub fn integrity_verdict(exists: bool, len: u64, probe_success: bool, stderr: &str) -> (r: Result<
    (),
    String,
>)
    ensures
        r is Ok <==> integrity_ok(exists, len, probe_success, stderr@),
        r matches Err(m) ==> m@ == integrity_error(exists, len, stderr@),
{
    if !exists {
        return Err(String::from_str("Output file does not exist"));
    }
    if len == 0 {
        return Err(String::from_str("Output file is empty"));
    }
    let n = stderr.unicode_len();
    if probe_success && n == 0 {
        return Ok(());
    }
    let keep = if n <= MAX_DIAGNOSTIC_CHARS {
        n
    } else {
        MAX_DIAGNOSTIC_CHARS
    };
    Err(String::from_str("Corrupt media container detected: ").concat(stderr.substring_char(0, keep)))
}

/// Oldest downloader release the supervisor works with.
pub open spec fn min_downloader_version() -> Seq<char> {
    "2023.01.01"@
}

/// `a` sorts before `b`, character by character, a proper prefix first.
pub open spec fn text_less(a: Seq<char>, b: Seq<char>) -> bool
    decreases a.len(),
{
    if a.len() == 0 {
        b.len() > 0
    } else if b.len() == 0 {
        false
    } else if a[0] != b[0] {
        (a[0] as u32) < (b[0] as u32)
    } else {
        text_less(a.drop_first(), b.drop_first())
    }
}

proof fn lemma_text_less_skip(a: Seq<char>, b: Seq<char>, i: int)
    requires
        0 <= i < a.len(),
        i < b.len(),
        a[i] == b[i],
    ensures
        text_less(a.subrange(i, a.len() as int), b.subrange(i, b.len() as int)) == text_less(
            a.subrange(i + 1, a.len() as int),
            b.subrange(i + 1, b.len() as int),
        ),
{
    assert(a.subrange(i, a.len() as int).drop_first() =~= a.subrange(i + 1, a.len() as int));
    assert(b.subrange(i, b.len() as int).drop_first() =~= b.subrange(i + 1, b.len() as int));
}

/// Whether a downloader reporting `version` (its date-like release name)
/// is older than the oldest supported release.
pub fn downloader_outdated(version: &str) -> (r: bool)
    ensures
        r == text_less(version@, min_downloader_version()),
{
    let min = "2023.01.01";
    let n = version.unicode_len();
    let m = min.unicode_len();
    let mut i: usize = 0;
    proof {
        assert(version@.subrange(0, n as int) =~= version@);
        assert(min@.subrange(0, m as int) =~= min@);
    }
    while i < n && i < m
        invariant
            min@ == min_downloader_version(),
            n == version@.len(),
            m == min@.len(),
            i <= n,
            i <= m,
            text_less(version@, min@) == text_less(
                version@.subrange(i as int, n as int),
                min@.subrange(i as int, m as int),
            ),
        decreases n - i,
    {
        let a = version.get_char(i);
        let b = min.get_char(i);
        if a != b {
            assert(version@.subrange(i as int, n as int)[0] == a);
            assert(min@.subrange(i as int, m as int)[0] == b);
            return (a as u32) < (b as u32);
        }
        proof {
            lemma_text_less_skip(version@, min@, i as int);
        }
        i = i + 1;
    }
    i == n && i < m
}

} // verus!
