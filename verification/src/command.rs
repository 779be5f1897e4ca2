//! The command line: what is asked for, and what is to be done about it.

use vstd::prelude::*;
use vstd::string::*;

use crate::path::extension;
use crate::record::Format;
use crate::text::{chars_of, find_first, find_last, join3, push_decimal, same};

verus! {

/// Stream quality number where none is given.
pub const QUALITY_DEFAULT: u32 = 150;

/// Record audio from Bilibili live streams.
#[derive(Debug)]
pub struct Cli {
    /// Show debug messages.
    pub verbose: bool,
    pub command: Commands,
}

#[derive(Debug)]
pub enum Commands {
    /// Manage Bilibili authentication.
    Auth { action: AuthAction },
    /// Pipe raw FLV stream to stdout, or serve via TCP.
    Pipe {
        /// Bilibili room ID (short or real).
        room_id: i64,
        quality: u32,
        /// Max duration in seconds.
        timeout: Option<u64>,
        /// Listen on address[:port].
        listen: Option<String>,
        /// TCP port, overrides the port in `listen`.
        port: Option<u16>,
    },
    /// Record live stream to file.
    Record {
        /// Bilibili room ID (short or real).
        room_id: i64,
        format: Option<String>,
        /// Output file path.
        output: Option<String>,
        quality: u32,
        /// Max recording duration in seconds.
        timeout: Option<u64>,
        no_video: bool,
        no_audio: bool,
    },
}

#[derive(Debug)]
pub enum AuthAction {
    /// Login by scanning QR code.
    Login,
    /// Login with browser cookies.
    UseCookies { cookies: Vec<String> },
    /// Logout and clear stored cookies.
    Logout,
    /// Check if stored cookies are still valid.
    Check,
}

/// Why a command line is refused.
#[derive(Debug)]
pub enum CommandError {
    /// `-f` names no format.
    UnsupportedFormat(String),
    /// Neither `-f` nor the extension of `-o` gives the format.
    UnknownFormat,
    /// `-f` and the extension of `-o` give different formats.
    FormatMismatch { format: Format, ext: String },
    /// An IPv6 address without brackets and without a port.
    Ipv6WithoutPort(String),
    /// An address without a port.
    AddrWithoutPort(String),
}

impl CommandError {
    /// What the user is told.
    pub open spec fn text(&self) -> Seq<char> {
        match self {
            CommandError::UnsupportedFormat(name) => "unsupported format: "@ + name@,
            CommandError::UnknownFormat =>
            "Must specify either -f/--format or -o with a recognised extension (wav, mp3, flac, flv)"@,
            CommandError::FormatMismatch { format, ext } => "Format mismatch: -f "@ + format.ext()
                + " but output extension is ."@ + ext@,
            CommandError::Ipv6WithoutPort(addr) => "IPv6 address '"@ + addr@
                + "' has no port. Use '["@ + addr@ + "]:<port>' or --port/-p."@,
            CommandError::AddrWithoutPort(addr) => "'"@ + addr@ + "' has no port. Use '"@ + addr@
                + ":<port>' or --port/-p."@,
        }
    }

    /// What the user is told.
    pub fn message(&self) -> (text: String)
        ensures
            text@ == self.text(),
    {
        let mut text = String::new();
        match self {
            CommandError::UnsupportedFormat(name) => {
                text.append("unsupported format: ");
                text.append(name.as_str());
            },
            CommandError::UnknownFormat => {
                text.append(
                    "Must specify either -f/--format or -o with a recognised extension (wav, mp3, flac, flv)",
                );
            },
            CommandError::FormatMismatch { format, ext } => {
                text.append("Format mismatch: -f ");
                text.append(format.extension());
                text.append(" but output extension is .");
                text.append(ext.as_str());
            },
            CommandError::Ipv6WithoutPort(addr) => {
                text.append("IPv6 address '");
                text.append(addr.as_str());
                text.append("' has no port. Use '[");
                text.append(addr.as_str());
                text.append("]:<port>' or --port/-p.");
            },
            CommandError::AddrWithoutPort(addr) => {
                text.append("'");
                text.append(addr.as_str());
                text.append("' has no port. Use '");
                text.append(addr.as_str());
                text.append(":<port>' or --port/-p.");
            },
        }
        assert(text@ =~= self.text());
        text
    }
}

/// What the user is told names what was given: the format that there is not, the two
/// formats that differ, the address that has no port.
pub proof fn law_refusal_names_what_was_given(error: CommandError)
    ensures
        error matches CommandError::UnsupportedFormat(name) ==> crate::text::tells(
            error.text(),
            name@,
        ),
        error matches CommandError::FormatMismatch { format, ext } ==> crate::text::tells(
            error.text(),
            format.ext(),
        ) && crate::text::tells(error.text(), ext@),
        error matches CommandError::Ipv6WithoutPort(addr) ==> crate::text::tells(
            error.text(),
            addr@,
        ),
        error matches CommandError::AddrWithoutPort(addr) ==> crate::text::tells(
            error.text(),
            addr@,
        ),
{
    let none = Seq::<char>::empty();
    let text = error.text();
    match error {
        CommandError::UnsupportedFormat(name) => {
            crate::text::lemma_tells("unsupported format: "@, name@, none);
            assert("unsupported format: "@ + name@ + none =~= text);
        },
        CommandError::FormatMismatch { format, ext } => {
            let front = "Format mismatch: -f "@;
            let middle = " but output extension is ."@;
            crate::text::lemma_tells(front, format.ext(), middle + ext@);
            assert(front + format.ext() + (middle + ext@) =~= text);
            crate::text::lemma_tells(front + format.ext() + middle, ext@, none);
            assert(front + format.ext() + middle + ext@ + none =~= text);
        },
        CommandError::Ipv6WithoutPort(addr) => {
            let back = "' has no port. Use '["@ + addr@ + "]:<port>' or --port/-p."@;
            crate::text::lemma_tells("IPv6 address '"@, addr@, back);
            assert("IPv6 address '"@ + addr@ + back =~= text);
        },
        CommandError::AddrWithoutPort(addr) => {
            let back = "' has no port. Use '"@ + addr@ + ":<port>' or --port/-p."@;
            crate::text::lemma_tells("'"@, addr@, back);
            assert("'"@ + addr@ + back =~= text);
        },
        CommandError::UnknownFormat => {},
    }
}

/// The format that the extension of the output path stands for.
pub open spec fn inferred(output: Option<Seq<char>>) -> Option<Format> {
    match output {
        Some(path) => match crate::path::extension_of(path) {
            Some(ext) => Format::of_ext(ext),
            None => None,
        },
        None => None,
    }
}

/// A text that may be missing, as its characters.
pub open spec fn chars_if(text: Option<&str>) -> Option<Seq<char>> {
    match text {
        Some(t) => Some(t@),
        None => None,
    }
}

/// The format of a recording, or `None` where `-f` and `-o` give none, or two.
pub open spec fn chosen(format_arg: Option<Seq<char>>, output: Option<Seq<char>>) -> Option<
    Format,
> {
    match format_arg {
        Some(arg) => match (Format::of_ext(arg), inferred(output)) {
            (Some(format), Some(other)) => if other == format {
                Some(format)
            } else {
                None
            },
            (format, _) => format,
        },
        None => inferred(output),
    }
}

/// The format of a recording, from `-f` or else from the extension of `-o`.
pub fn resolve_format(format_arg: Option<&str>, output: Option<&str>) -> (r: Result<
    Format,
    CommandError,
>)
    ensures
        match format_arg {
            Some(arg) => match Format::of_ext(arg@) {
                Some(format) => match inferred(chars_if(output)) {
                    Some(other) => if other == format {
                        r == Ok::<Format, CommandError>(format)
                    } else {
                        r matches Err(CommandError::FormatMismatch { format: f, ext }) && f
                            == format && ext@ == other.ext()
                    },
                    None => r == Ok::<Format, CommandError>(format),
                },
                None => r matches Err(CommandError::UnsupportedFormat(name)) && name@ == arg@,
            },
            None => match inferred(chars_if(output)) {
                Some(format) => r == Ok::<Format, CommandError>(format),
                None => r == Err::<Format, CommandError>(CommandError::UnknownFormat),
            },
        },
        chosen(chars_if(format_arg), chars_if(output)) == (match r {
            Ok(format) => Some(format),
            Err(_) => None,
        }),
{
    match format_arg {
        Some(arg) => match Format::from_ext(arg) {
            Some(format) => check_output_consistency(format, output),
            None => Err(CommandError::UnsupportedFormat(arg.to_owned())),
        },
        None => {
            if let Some(path) = output {
                if let Some(ext) = extension(path) {
                    if let Some(format) = Format::from_ext(ext) {
                        return Ok(format);
                    }
                }
            }
            Err(CommandError::UnknownFormat)
        },
    }
}

/// If -o has a recognisable extension, it must agree with -f.
pub fn check_output_consistency(format: Format, output: Option<&str>) -> (r: Result<
    Format,
    CommandError,
>)
    ensures
        match inferred(chars_if(output)) {
            Some(other) => if other == format {
                r == Ok::<Format, CommandError>(format)
            } else {
                r matches Err(CommandError::FormatMismatch { format: f, ext }) && f == format
                    && ext@ == other.ext()
            },
            None => r == Ok::<Format, CommandError>(format),
        },
        r is Ok ==> r == Ok::<Format, CommandError>(format),
        r is Ok <==> (inferred(chars_if(output)) is None || inferred(chars_if(output)) == Some(
            format,
        )),
{
    if let Some(path) = output {
        if let Some(ext) = extension(path) {
            if let Some(other) = Format::from_ext(ext) {
                if other != format {
                    return Err(CommandError::FormatMismatch { format, ext: ext.to_owned() });
                }
            }
        }
    }
    Ok(format)
}

/// The file name that a recording gets of itself stands for the format of that
/// recording, so it agrees with `-f`.
pub proof fn law_auto_name_gives_format(real_room_id: i64, ts: Seq<char>, format: Format)
    requires
        forall|i: int|
            0 <= i < ts.len() ==> crate::record::is_timestamp_char(#[trigger] ts[i]),
    ensures
        inferred(Some(crate::record::auto_name(real_room_id, ts, format))) == Some(format),
{
    crate::record::law_auto_name_has_extension(real_room_id, ts, format);
    crate::record::law_extension_gives_format_back(format);
}

/// Wherever it points, an output path stands for the format whose extension it has.
pub proof fn law_output_path_gives_format(prefix: Seq<char>, stem: Seq<char>, format: Format)
    requires
        crate::path::is_directory(prefix),
        stem.len() > 0,
        !stem.contains('/'),
    ensures
        inferred(Some(prefix + stem + seq!['.'] + format.ext())) == Some(format),
{
    crate::record::law_extension_is_one_word(format);
    crate::record::law_extension_gives_format_back(format);
    crate::path::law_extension_follows_the_last_dot(prefix, stem, format.ext());
}

/// An output path with any other extension, or with none, stands for no format.
pub proof fn law_other_output_path_gives_no_format(path: Seq<char>)
    ensures
        inferred(None) is None,
        crate::path::extension_of(path) is None ==> inferred(Some(path)) is None,
        crate::path::extension_of(path) matches Some(ext) ==> ((forall|format: Format|
            ext != #[trigger] format.ext()) ==> inferred(Some(path)) is None),
{
    if let Some(ext) = crate::path::extension_of(path) {
        crate::record::law_format_gives_extension_back(ext);
    }
}

/// `-f` alone gives the format that it names, and `-o` alone the one whose extension
/// it has. Where both are given they must agree. An output path whose extension stands
/// for no format is in the way of none.
pub proof fn law_format_options_must_agree(
    prefix: Seq<char>,
    stem: Seq<char>,
    format: Format,
    other: Format,
    path: Seq<char>,
)
    requires
        crate::path::is_directory(prefix),
        stem.len() > 0,
        !stem.contains('/'),
        inferred(Some(path)) is None,
    ensures
        chosen(Some(format.ext()), None) == Some(format),
        chosen(None, Some(prefix + stem + seq!['.'] + format.ext())) == Some(format),
        chosen(Some(format.ext()), Some(prefix + stem + seq!['.'] + other.ext())) == (if format
            == other {
            Some(format)
        } else {
            None
        }),
        chosen(Some(format.ext()), Some(path)) == Some(format),
        chosen(None, Some(path)) is None,
        chosen(None, None) is None,
{
    law_output_path_gives_format(prefix, stem, format);
    law_output_path_gives_format(prefix, stem, other);
    crate::record::law_extension_gives_format_back(format);
}

/// A format that is named with `-f` must be one of those that there are, whatever the
/// output path.
pub proof fn law_unknown_format_is_refused(name: Seq<char>, output: Option<Seq<char>>)
    requires
        forall|format: Format| name != #[trigger] format.ext(),
    ensures
        chosen(Some(name), output) is None,
{
    crate::record::law_format_gives_extension_back(name);
}

/// How many colons an address holds.
pub open spec fn colons(addr: Seq<char>) -> nat {
    addr.filter(|c: char| c == ':').len()
}

/// Whether a colon follows directly on a closing bracket.
pub open spec fn has_bracket_colon(addr: Seq<char>) -> bool {
    exists|i: int| 0 <= i < addr.len() - 1 && #[trigger] addr[i] == ']' && addr[i + 1] == ':'
}

/// Whether an address brings its port: `host:port` or `[IPv6]:port`.
pub open spec fn has_port(addr: Seq<char>) -> bool {
    has_bracket_colon(addr) || colons(addr) == 1
}

/// Whether an address is an IPv6 address without brackets.
pub open spec fn is_bare_ipv6(addr: Seq<char>) -> bool {
    colons(addr) >= 2 && addr[0] != '['
}

/// The host of an address that brings its port.
pub open spec fn host_of(addr: Seq<char>) -> Seq<char> {
    let bracket = crate::text::first_at(addr, ']');
    if bracket < addr.len() {
        addr.take(bracket + 1)
    } else {
        addr.take(crate::text::last_at(addr, ':'))
    }
}

/// A host and a port as one address.
pub open spec fn with_port(host: Seq<char>, port: u16) -> Seq<char> {
    host + seq![':'] + crate::text::decimal(port as nat)
}

/// What `-l` and `-p` ask for.
pub enum Listen {
    /// No address: the stream goes to stdout.
    Stdout,
    /// The address to bind.
    At(Seq<char>),
    /// An IPv6 address without brackets, and no port anywhere.
    Ipv6WithoutPort,
    /// An address, and no port anywhere.
    WithoutPort,
}

/// What `-l` and `-p` ask for.
pub open spec fn listen_at(listen: Option<Seq<char>>, port: Option<u16>) -> Listen {
    match (listen, port) {
        (None, None) => Listen::Stdout,
        (None, Some(p)) => Listen::At(with_port("127.0.0.1"@, p)),
        (Some(addr), None) => if is_bare_ipv6(addr) {
            Listen::Ipv6WithoutPort
        } else if has_port(addr) {
            Listen::At(addr)
        } else {
            Listen::WithoutPort
        },
        (Some(addr), Some(p)) => if is_bare_ipv6(addr) {
            Listen::At(with_port(seq!['['] + addr + seq![']'], p))
        } else if has_port(addr) {
            Listen::At(with_port(host_of(addr), p))
        } else {
            Listen::At(with_port(addr, p))
        },
    }
}

fn count_colons(chars: &Vec<char>) -> (n: usize)
    ensures
        n == colons(chars@),
{
    let mut n: usize = 0;
    let mut i: usize = 0;
    proof {
        reveal(Seq::filter);
    }
    while i < chars.len()
        invariant
            n <= i <= chars@.len(),
            n == colons(chars@.take(i as int)),
        decreases chars@.len() - i,
    {
        proof {
            reveal(Seq::filter);
            assert(chars@.take(i + 1).drop_last() =~= chars@.take(i as int));
        }
        if chars[i] == ':' {
            n += 1;
        }
        i += 1;
    }
    assert(chars@.take(chars@.len() as int) =~= chars@);
    n
}

fn bracket_colon(chars: &Vec<char>) -> (found: bool)
    ensures
        found == has_bracket_colon(chars@),
{
    let mut i: usize = 1;
    while i < chars.len()
        invariant
            1 <= i,
            chars@.len() > 0 ==> i <= chars@.len(),
            forall|j: int|
                0 <= j < i - 1 ==> !(#[trigger] chars@[j] == ']' && chars@[j + 1] == ':'),
        decreases chars@.len() - i,
    {
        if chars[i - 1] == ']' && chars[i] == ':' {
            assert(chars@[i - 1] == ']');
            return true;
        }
        i += 1;
    }
    false
}

fn joined(host: &str, port: u16) -> (addr: String)
    ensures
        addr@ == with_port(host@, port),
{
    let mut addr = String::new();
    addr.append(host);
    addr.append(":");
    push_decimal(&mut addr, port as u64);
    proof {
        reveal_strlit(":");
        assert(":"@ =~= seq![':']);
        assert(addr@ =~= with_port(host@, port));
    }
    addr
}

/// Resolve the bind address from `-l` and `-p` flags.
///
/// | `-l`        | `-p`  | result                |
/// |-------------|-------|-----------------------|
/// | (none)      | (none)| `None` (stdout mode)  |
/// | (none)      | 3000  | `127.0.0.1:3000`      |
/// | `0.0.0.0:0` | (none)| `0.0.0.0:0` (random)  |
/// | `127.0.0.1` | 3000  | `127.0.0.1:3000`      |
/// | `127.0.0.1:3000` | 4000 | `127.0.0.1:4000` |
pub fn resolve_listen_addr(listen: Option<&String>, port: Option<u16>) -> (r: Result<
    Option<String>,
    CommandError,
>)
    ensures
        match listen_at(
            match listen {
                Some(l) => Some(l@),
                None => None,
            },
            port,
        ) {
            Listen::Stdout => r == Ok::<Option<String>, CommandError>(None),
            Listen::At(addr) => r matches Ok(Some(a)) && a@ == addr,
            Listen::Ipv6WithoutPort => r matches Err(CommandError::Ipv6WithoutPort(a)) && a@
                == listen.unwrap()@,
            Listen::WithoutPort => r matches Err(CommandError::AddrWithoutPort(a)) && a@
                == listen.unwrap()@,
        },
{
    let addr: &String = match listen {
        None => {
            return match port {
                None => Ok(None),
                Some(p) => Ok(Some(joined("127.0.0.1", p))),
            };
        },
        Some(addr) => addr,
    };
    let chars = chars_of(addr.as_str());
    let len: usize = chars.len();
    let count: usize = count_colons(&chars);
    let with_own_port = bracket_colon(&chars) || count == 1;
    proof {
        reveal(Seq::filter);
        addr@.lemma_filter_len(|c: char| c == ':');
    }
    let bare_ipv6 = count >= 2 && chars[0] != '[';

    if bare_ipv6 {
        match port {
            Some(p) => {
                let host = join3("[", addr.as_str(), "]");
                proof {
                    reveal_strlit("[");
                    reveal_strlit("]");
                    assert(host@ =~= seq!['['] + addr@ + seq![']']);
                }
                Ok(Some(joined(host.as_str(), p)))
            },
            None => Err(CommandError::Ipv6WithoutPort(addr.clone())),
        }
    } else if with_own_port {
        match port {
            Some(p) => {
                proof {
                    crate::text::lemma_first_at(addr@, ']');
                    crate::text::lemma_last_at(addr@, ':');
                    lemma_port_has_colon(addr@);
                }
                assert(len == addr@.len());
                let host: &str = match find_first(&chars, ']') {
                    Some(bracket) => addr.as_str().substring_char(0, bracket + 1),
                    None => match find_last(&chars, ':') {
                        Some(colon) => addr.as_str().substring_char(0, colon),
                        None => addr.as_str(),
                    },
                };
                assert(host@ =~= host_of(addr@));
                Ok(Some(joined(host, p)))
            },
            None => Ok(Some(addr.clone())),
        }
    } else {
        match port {
            Some(p) => Ok(Some(joined(addr.as_str(), p))),
            None => Err(CommandError::AddrWithoutPort(addr.clone())),
        }
    }
}

/// An address that brings its port holds a colon.
proof fn lemma_port_has_colon(addr: Seq<char>)
    requires
        has_port(addr),
    ensures
        addr.contains(':'),
{
    let is_colon = |c: char| c == ':';
    if has_bracket_colon(addr) {
        let i = choose|i: int| 0 <= i < addr.len() - 1 && #[trigger] addr[i] == ']' && addr[i + 1] == ':';
        assert(addr[i + 1] == ':');
    } else {
        lemma_filter_from(addr, is_colon, 0);
    }
}

proof fn lemma_filter_from(text: Seq<char>, pred: spec_fn(char) -> bool, i: int)
    requires
        0 <= i < text.filter(pred).len(),
    ensures
        text.contains(text.filter(pred)[i]),
        pred(text.filter(pred)[i]),
    decreases text.len(),
{
    reveal(Seq::filter);
    let front = text.drop_last();
    if i < front.filter(pred).len() {
        lemma_filter_from(front, pred, i);
        let k = choose|k: int| 0 <= k < front.len() && front[k] == front.filter(pred)[i];
        assert(text[k] == front[k]);
    } else {
        assert(text[text.len() - 1] == text.last());
    }
}

proof fn lemma_colons_add(a: Seq<char>, b: Seq<char>)
    ensures
        colons(a + b) == colons(a) + colons(b),
{
    Seq::filter_distributes_over_add(a, b, |c: char| c == ':');
}

proof fn lemma_no_colons(text: Seq<char>)
    requires
        !text.contains(':'),
    ensures
        colons(text) == 0,
{
    let is_colon = |c: char| c == ':';
    if text.filter(is_colon).len() > 0 {
        lemma_filter_from(text, is_colon, 0);
    }
}

proof fn lemma_colons_with_port(host: Seq<char>, port: u16)
    ensures
        colons(with_port(host, port)) == colons(host) + 1,
{
    let digits = crate::text::decimal(port as nat);
    crate::text::lemma_decimal_digits(port as nat);
    lemma_no_colons(digits);
    lemma_colons_add(host + seq![':'], digits);
    lemma_colons_add(host, seq![':']);
    assert(colons(seq![':']) == 1) by {
        reveal_with_fuel(Seq::filter, 2);
        assert(seq![':'].drop_last() =~= Seq::<char>::empty());
    }
}

/// A host as it stands in an address: without colons and closing brackets, or in
/// brackets.
pub open spec fn is_host(host: Seq<char>) -> bool {
    ||| !host.contains(':') && !host.contains(']')
    ||| host.len() >= 2 && host[0] == '[' && crate::text::first_at(host, ']') == host.len() - 1
}

/// With `-p` an address is never refused.
pub proof fn law_port_option_is_never_refused(listen: Option<Seq<char>>, port: u16)
    ensures
        listen_at(listen, Some(port)) is At,
{
}

/// Whether an address is this host, a colon and this port in decimal.
pub open spec fn reads_as(addr: Seq<char>, host: Seq<char>, port: u16) -> bool {
    &&& addr.len() > host.len()
    &&& addr.take(host.len() as int) == host
    &&& addr[host.len() as int] == ':'
    &&& crate::text::is_number(addr.skip((host.len() + 1) as int))
    &&& crate::text::number_of(addr.skip((host.len() + 1) as int)) == port
}

/// A host and a port as one address read as that host and that port.
pub proof fn law_address_reads_back(host: Seq<char>, port: u16)
    ensures
        reads_as(with_port(host, port), host, port),
{
    let digits = crate::text::decimal(port as nat);
    crate::text::law_decimal_reads_back(port as nat);
    let addr = with_port(host, port);
    assert(addr.take(host.len() as int) =~= host);
    assert(addr.skip((host.len() + 1) as int) =~= digits);
}

/// No address and no port means stdout, and nothing else does.
pub proof fn law_stdout_only_without_options(listen: Option<Seq<char>>, port: Option<u16>)
    ensures
        listen_at(listen, port) is Stdout <==> listen is None && port is None,
{
}

/// `-p` alone means the loopback address, and exactly the port that was asked for.
pub proof fn law_port_alone_means_loopback(port: u16)
    ensures
        listen_at(None, Some(port)) == listen_at(Some("127.0.0.1"@), Some(port)),
        listen_at(None, Some(port)) matches Listen::At(addr) && reads_as(
            addr,
            "127.0.0.1"@,
            port,
        ),
{
    reveal_strlit("127.0.0.1");
    law_port_option_wins("127.0.0.1"@, port, port);
    law_address_reads_back("127.0.0.1"@, port);
}

/// What a host and a port text tell of the address that they make up.
proof fn lemma_own_port(host: Seq<char>, own: Seq<char>)
    requires
        is_host(host),
        !own.contains(':'),
        !own.contains(']'),
    ensures
        ({
            let full = host + seq![':'] + own;
            &&& has_port(full)
            &&& !is_bare_ipv6(full)
            &&& host_of(full) == host
        }),
{
    let full = host + seq![':'] + own;
    let colon = host.len() as int;
    crate::text::lemma_first_at(host, ']');
    crate::text::lemma_first_at(full, ']');
    assert(full[colon] == ':');
    assert forall|j: int| colon < j < full.len() implies full[j] != ':' && full[j] != ']' by {
        assert(full[j] == own[j - colon - 1]);
    }
    assert forall|j: int| 0 <= j < colon implies full[j] == #[trigger] host[j] by {}
    if !host.contains(':') && !host.contains(']') {
        lemma_no_colons(host);
        lemma_no_colons(own);
        lemma_colons_add(host + seq![':'], own);
        lemma_colons_add(host, seq![':']);
        assert(colons(seq![':']) == 1) by {
            reveal_with_fuel(Seq::filter, 2);
            assert(seq![':'].drop_last() =~= Seq::<char>::empty());
        }
        let bracket = crate::text::first_at(full, ']');
        assert(bracket == full.len()) by {
            if 0 <= bracket < colon {
                assert(host[bracket] == ']');
            }
        }
        crate::text::lemma_last_at_is(full, ':', colon);
        assert(host_of(full) =~= host);
    } else {
        assert(full[colon - 1] == host[colon - 1]);
        assert(full[0] == host[0]);
        assert(has_bracket_colon(full)) by {
            assert(full[colon - 1] == ']' && full[colon - 1 + 1] == ':');
        }
        let bracket = crate::text::first_at(full, ']');
        assert(bracket == colon - 1) by {
            if bracket < colon - 1 {
                assert(host[bracket] == ']');
            }
        }
        assert(host_of(full) =~= host);
    }
}

/// An address that brings its port is taken as it is where `-p` is not given.
pub proof fn law_complete_address_is_taken_as_it_is(host: Seq<char>, own: Seq<char>)
    requires
        is_host(host),
        !own.contains(':'),
        !own.contains(']'),
    ensures
        listen_at(Some(host + seq![':'] + own), None) == Listen::At(host + seq![':'] + own),
{
    lemma_own_port(host, own);
}

/// `-p` replaces whatever port an address brings, and the host stays.
pub proof fn law_port_option_replaces_the_port(host: Seq<char>, own: Seq<char>, port: u16)
    requires
        is_host(host),
        !own.contains(':'),
        !own.contains(']'),
    ensures
        listen_at(Some(host + seq![':'] + own), Some(port)) matches Listen::At(addr) && reads_as(
            addr,
            host,
            port,
        ),
{
    lemma_own_port(host, own);
    law_address_reads_back(host, port);
}

/// A colon at two places makes at least two colons.
proof fn lemma_two_colons(addr: Seq<char>, i: int, j: int)
    requires
        0 <= i < j < addr.len(),
        addr[i] == ':',
        addr[j] == ':',
    ensures
        colons(addr) >= 2,
{
    let is_colon = |c: char| c == ':';
    let front = addr.take(j);
    let back = addr.skip(j);
    assert(addr =~= front + back);
    lemma_colons_add(front, back);
    assert(front[i] == ':' && back[0] == ':');
    front.lemma_filter_contains(is_colon, i);
    back.lemma_filter_contains(is_colon, 0);
}

/// A host without a port is refused where `-p` is not given.
pub proof fn law_host_without_port_is_refused(host: Seq<char>, i: int, j: int)
    requires
        is_host(host),
        !host.contains(':') || 0 <= i < j < host.len() && host[i] == ':' && host[j] == ':',
    ensures
        listen_at(Some(host), None) == Listen::WithoutPort,
{
    crate::text::lemma_first_at(host, ']');
    if host.contains(':') {
        lemma_two_colons(host, i, j);
        assert(!has_bracket_colon(host)) by {
            if has_bracket_colon(host) {
                let k = choose|k: int|
                    0 <= k < host.len() - 1 && #[trigger] host[k] == ']' && host[k + 1] == ':';
                assert(host[k] == ']');
            }
        }
        if host[0] != '[' {
            assert(host[i] == ':');
        }
    } else {
        lemma_no_colons(host);
        assert(!has_bracket_colon(host)) by {
            if has_bracket_colon(host) {
                let k = choose|k: int|
                    0 <= k < host.len() - 1 && #[trigger] host[k] == ']' && host[k + 1] == ':';
                assert(host[k + 1] == ':');
            }
        }
    }
}

/// An IPv6 address without brackets, one with at least two colons, has no port of its
/// own: without `-p` it is refused, and with it it stands in brackets before the port.
pub proof fn law_bare_ipv6_takes_the_port_option(addr: Seq<char>, i: int, j: int, port: u16)
    requires
        0 <= i < j < addr.len(),
        addr[i] == ':',
        addr[j] == ':',
        addr[0] != '[',
    ensures
        listen_at(Some(addr), None) == Listen::Ipv6WithoutPort,
        listen_at(Some(addr), Some(port)) matches Listen::At(full) && reads_as(
            full,
            seq!['['] + addr + seq![']'],
            port,
        ),
{
    lemma_two_colons(addr, i, j);
    law_address_reads_back(seq!['['] + addr + seq![']'], port);
}

/// `-p` gives an address its port. It replaces any port that the address brings, and
/// the host stays.
pub proof fn law_port_option_wins(host: Seq<char>, own_port: u16, port: u16)
    requires
        is_host(host),
    ensures
        listen_at(Some(host), Some(port)) == Listen::At(with_port(host, port)),
        listen_at(Some(host), Some(port)) matches Listen::At(addr) && reads_as(addr, host, port),
        listen_at(Some(with_port(host, own_port)), Some(port)) == Listen::At(
            with_port(host, port),
        ),
{
    law_address_reads_back(host, port);
    let full = with_port(host, own_port);
    let digits = crate::text::decimal(own_port as nat);
    let colon = host.len() as int;
    crate::text::lemma_decimal_digits(own_port as nat);
    crate::text::lemma_first_at(host, ']');
    crate::text::lemma_first_at(full, ']');
    assert(full[colon] == ':');
    assert forall|j: int| colon < j < full.len() implies full[j] != ':' && full[j] != ']' by {
        assert(full[j] == digits[j - colon - 1]);
    }
    assert forall|j: int| 0 <= j < colon implies full[j] == #[trigger] host[j] by {}
    lemma_colons_with_port(host, own_port);
    if !host.contains(':') && !host.contains(']') {
        lemma_no_colons(host);
        assert(!has_bracket_colon(host));
        let bracket = crate::text::first_at(full, ']');
        assert(bracket == full.len()) by {
            if 0 <= bracket < colon {
                assert(host[bracket] == ']');
            }
        }
        crate::text::lemma_last_at_is(full, ':', colon);
        assert(host_of(full) =~= host);
    } else {
        assert(full[colon - 1] == host[colon - 1]);
        assert(full[0] == host[0]);
        assert(has_bracket_colon(full)) by {
            assert(full[colon - 1] == ']' && full[colon - 1 + 1] == ':');
        }
        let bracket = crate::text::first_at(full, ']');
        assert(bracket == colon - 1) by {
            if bracket < colon - 1 {
                assert(host[bracket] == ']');
            }
        }
        assert(host_of(full) =~= host);
        assert(host_of(host) =~= host);
    }
}

/// With `-p` an IPv6 address may stand with or without brackets.
pub proof fn law_ipv6_may_go_without_brackets(addr: Seq<char>, port: u16)
    requires
        is_bare_ipv6(addr),
        !addr.contains(']'),
    ensures
        listen_at(Some(addr), Some(port)) == listen_at(
            Some(seq!['['] + addr + seq![']']),
            Some(port),
        ),
{
    let host = seq!['['] + addr + seq![']'];
    crate::text::lemma_first_at(host, ']');
    let bracket = crate::text::first_at(host, ']');
    assert(host[host.len() - 1] == ']');
    assert(bracket == host.len() - 1) by {
        if bracket < host.len() - 1 {
            assert(addr[bracket - 1] == host[bracket]);
        }
    }
    law_port_option_wins(host, port, port);
}

/// An address with a bracket out of place: an opening bracket at the start and
/// colons, but no closing bracket before a colon or at the end; or a closing
/// bracket after the only colon, without an opening bracket at the start.
pub open spec fn has_stray_bracket(addr: Seq<char>) -> bool {
    let bracket = crate::text::first_at(addr, ']');
    ||| addr.len() > 0 && addr[0] == '[' && colons(addr) >= 2 && !has_bracket_colon(addr)
        && addr.last() != ']'
    ||| bracket < addr.len() && addr[0] != '[' && colons(addr) == 1 && addr.take(
        bracket,
    ).contains(':')
}

/// The address that `-l` and `-p` give brings its port: given to `-l` alone, it
/// gives itself.
pub proof fn law_resolved_address_is_complete(listen: Option<Seq<char>>, port: Option<u16>)
    requires
        listen matches Some(addr) ==> (port is Some ==> !has_stray_bracket(addr)),
    ensures
        listen_at(listen, port) matches Listen::At(addr) ==> listen_at(Some(addr), None)
            == Listen::At(addr),
{
    reveal_strlit("127.0.0.1");
    if let Some(p) = port {
        match listen {
            None => {
                lemma_no_colons("127.0.0.1"@);
                lemma_colons_with_port("127.0.0.1"@, p);
            },
            Some(addr) => {
                if is_bare_ipv6(addr) {
                    let host = seq!['['] + addr + seq![']'];
                    let full = with_port(host, p);
                    assert(full[host.len() - 1] == ']' && full[host.len() as int] == ':');
                    assert(full[0] == '[');
                } else if has_port(addr) {
                    let host = host_of(addr);
                    let full = with_port(host, p);
                    let bracket = crate::text::first_at(addr, ']');
                    crate::text::lemma_first_at(addr, ']');
                    crate::text::lemma_last_at(addr, ':');
                    lemma_colons_with_port(host, p);
                    lemma_port_has_colon(addr);
                    if bracket < addr.len() {
                        assert(full[host.len() - 1] == ']' && full[host.len() as int] == ':');
                        assert(full[0] == addr[0]);
                        if addr[0] != '[' {
                            assert(host =~= addr.take(bracket) + seq![']']);
                            assert(colons(addr) == 1) by {
                                let is_colon = |c: char| c == ':';
                                let k = choose|k: int| 0 <= k < addr.len() && addr[k] == ':';
                                addr.lemma_filter_contains(is_colon, k);
                            }
                            assert(!host.contains(':')) by {
                                if host.contains(':') {
                                    let k = choose|k: int| 0 <= k < host.len() && host[k] == ':';
                                    assert(addr.take(bracket)[k] == ':');
                                }
                            }
                            lemma_no_colons(host);
                        }
                    } else {
                        assert(colons(addr) == 1) by {
                            if has_bracket_colon(addr) {
                                let i = choose|i: int|
                                    0 <= i < addr.len() - 1 && #[trigger] addr[i] == ']' && addr[i
                                        + 1] == ':';
                                assert(addr[i] == ']');
                            }
                        }
                        let colon = crate::text::last_at(addr, ':');
                        assert(colon >= 0) by {
                            let k = choose|k: int| 0 <= k < addr.len() && addr[k] == ':';
                            assert(addr[k] == ':');
                        }
                        assert(addr =~= host + addr.skip(colon));
                        lemma_colons_add(host, addr.skip(colon));
                        assert(addr.skip(colon) =~= seq![':'] + addr.skip(colon + 1));
                        lemma_colons_add(seq![':'], addr.skip(colon + 1));
                        assert(colons(seq![':']) == 1) by {
                            reveal_with_fuel(Seq::filter, 2);
                            assert(seq![':'].drop_last() =~= Seq::<char>::empty());
                        }
                    }
                } else {
                    let full = with_port(addr, p);
                    lemma_colons_with_port(addr, p);
                    if colons(addr) >= 2 {
                        assert(addr.len() > 0) by {
                            addr.lemma_filter_len(|c: char| c == ':');
                        }
                        assert(full[addr.len() - 1] == ']' && full[addr.len() as int] == ':');
                        assert(full[0] == '[');
                    }
                }
            },
        }
    }
}

/// What is to be done about a command line.
#[derive(Debug)]
pub enum Task {
    Auth(AuthAction),
    Pipe {
        room_id: i64,
        quality: u32,
        /// In seconds.
        timeout: Option<u64>,
        /// The address to serve on; without one the stream goes to stdout.
        bind_addr: Option<String>,
    },
    Record {
        room_id: i64,
        format: Format,
        output: Option<String>,
        quality: u32,
        /// In seconds.
        timeout: Option<u64>,
        no_video: bool,
        no_audio: bool,
    },
}

/// What is to be done about a command line, as contracts speak of it.
pub enum Planned {
    Auth(AuthAction),
    Pipe { room_id: i64, quality: u32, timeout: Option<u64>, bind_addr: Option<Seq<char>> },
    Record {
        room_id: i64,
        format: Format,
        output: Option<Seq<char>>,
        quality: u32,
        timeout: Option<u64>,
        no_video: bool,
        no_audio: bool,
    },
}

/// A text that may be missing, as its characters.
pub open spec fn text_if(text: Option<String>) -> Option<Seq<char>> {
    match text {
        Some(t) => Some(t@),
        None => None,
    }
}

impl View for Task {
    type V = Planned;

    open spec fn view(&self) -> Planned {
        match *self {
            Task::Auth(action) => Planned::Auth(action),
            Task::Pipe { room_id, quality, timeout, bind_addr } => Planned::Pipe {
                room_id,
                quality,
                timeout,
                bind_addr: text_if(bind_addr),
            },
            Task::Record { room_id, format, output, quality, timeout, no_video, no_audio } =>
            Planned::Record {
                room_id,
                format,
                output: text_if(output),
                quality,
                timeout,
                no_video,
                no_audio,
            },
        }
    }
}

/// What is to be done about a command, or `None` where it is refused.
pub open spec fn planned(command: Commands) -> Option<Planned> {
    match command {
        Commands::Auth { action } => Some(Planned::Auth(action)),
        Commands::Pipe { room_id, quality, timeout, listen, port } => match listen_at(
            text_if(listen),
            port,
        ) {
            Listen::Stdout => Some(Planned::Pipe { room_id, quality, timeout, bind_addr: None }),
            Listen::At(addr) => Some(
                Planned::Pipe { room_id, quality, timeout, bind_addr: Some(addr) },
            ),
            _ => None,
        },
        Commands::Record { room_id, format, output, quality, timeout, no_video, no_audio } =>
        match chosen(text_if(format), text_if(output)) {
            Some(f) => Some(
                Planned::Record {
                    room_id,
                    format: f,
                    output: text_if(output),
                    quality,
                    timeout,
                    no_video,
                    no_audio,
                },
            ),
            None => None,
        },
    }
}

/// What is done is what was asked for: with the room, the quality and the time that were
/// given, to the file that was given, without the tracks that were turned off.
pub proof fn law_plan_is_what_was_asked_for(command: Commands)
    ensures
        command matches Commands::Auth { action } ==> planned(command) == Some(
            Planned::Auth(action),
        ),
        command matches Commands::Pipe {
            room_id: room,
            quality: qn,
            timeout: secs,
            listen: at,
            port: p,
        } ==> (planned(command) is Some <==> listen_at(text_if(at), p) is At || at is None && p
            is None) && (planned(command) matches Some(plan) ==> (plan matches Planned::Pipe {
            room_id,
            quality,
            timeout,
            bind_addr,
        } && room_id == room && quality == qn && timeout == secs && (bind_addr is None <==> at
            is None && p is None) && (bind_addr matches Some(addr) ==> listen_at(text_if(at), p)
            == Listen::At(addr)))),
        command matches Commands::Record {
            room_id: room,
            format: name,
            output: path,
            quality: qn,
            timeout: secs,
            no_video: nv,
            no_audio: na,
        } ==> (planned(command) is Some <==> chosen(text_if(name), text_if(path)) is Some) && (
        planned(command) matches Some(plan) ==> (plan matches Planned::Record {
            room_id,
            format,
            output,
            quality,
            timeout,
            no_video,
            no_audio,
        } && room_id == room && Some(format) == chosen(text_if(name), text_if(path)) && output
            == text_if(path) && quality == qn && timeout == secs && no_video == nv && no_audio
            == na)),
{
}

/// Contracts speak of a task with all that it holds.
pub proof fn law_nothing_is_left_out_of_view(task: Task)
    ensures
        task matches Task::Auth(action) ==> task@ == Planned::Auth(action),
        task matches Task::Pipe { room_id: room, quality: qn, timeout: secs, bind_addr: at } ==> (
        task@ matches Planned::Pipe { room_id, quality, timeout, bind_addr } && room_id == room
            && quality == qn && timeout == secs && bind_addr is Some == at is Some && (
        at matches Some(addr) ==> bind_addr == Some(addr@))),
        task matches Task::Record {
            room_id: room,
            format: kind,
            output: path,
            quality: qn,
            timeout: secs,
            no_video: nv,
            no_audio: na,
        } ==> (task@ matches Planned::Record {
            room_id,
            format,
            output,
            quality,
            timeout,
            no_video,
            no_audio,
        } && room_id == room && format == kind && quality == qn && timeout == secs && no_video == nv
            && no_audio == na && output is Some == path is Some && (path matches Some(o)
            ==> output == Some(o@))),
{
}

/// What is to be done about a command line: for `pipe` with the address that
/// `-l` and `-p` give, for `record` with the format that `-f` and `-o` give.
pub fn plan(cli: Cli) -> (r: Result<Task, CommandError>)
    ensures
        match cli.command {
            Commands::Auth { action } => r == Ok::<Task, CommandError>(Task::Auth(action)),
            Commands::Pipe { room_id, quality, timeout, listen, port } => match listen_at(
                match listen {
                    Some(l) => Some(l@),
                    None => None,
                },
                port,
            ) {
                Listen::Stdout => r == Ok::<Task, CommandError>(
                    (Task::Pipe { room_id, quality, timeout, bind_addr: None }),
                ),
                Listen::At(addr) => r matches Ok(
                    Task::Pipe { room_id: i, quality: q, timeout: t, bind_addr: Some(a) },
                ) && i == room_id && q == quality && t == timeout && a@ == addr,
                Listen::Ipv6WithoutPort => r matches Err(CommandError::Ipv6WithoutPort(a)) && a@
                    == listen.unwrap()@,
                Listen::WithoutPort => r matches Err(CommandError::AddrWithoutPort(a)) && a@
                    == listen.unwrap()@,
            },
            Commands::Record { room_id, format, output, quality, timeout, no_video, no_audio } => {
                let record = |f: Format|
                    Ok::<Task, CommandError>(
                        Task::Record {
                            room_id,
                            format: f,
                            output,
                            quality,
                            timeout,
                            no_video,
                            no_audio,
                        },
                    );
                let out = match output {
                    Some(o) => Some(o@),
                    None => None,
                };
                match format {
                    Some(arg) => match Format::of_ext(arg@) {
                        Some(f) => match inferred(out) {
                            Some(other) => if other == f {
                                r == record(f)
                            } else {
                                r matches Err(CommandError::FormatMismatch { format: g, ext }) && g
                                    == f && ext@ == other.ext()
                            },
                            None => r == record(f),
                        },
                        None => r matches Err(CommandError::UnsupportedFormat(name)) && name@
                            == arg@,
                    },
                    None => match inferred(out) {
                        Some(f) => r == record(f),
                        None => r == Err::<Task, CommandError>(CommandError::UnknownFormat),
                    },
                }
            },
        },
        planned(cli.command) == (match r {
            Ok(task) => Some(task@),
            Err(_) => None,
        }),
{
    match cli.command {
        Commands::Auth { action } => Ok(Task::Auth(action)),
        Commands::Pipe { room_id, quality, timeout, listen, port } => {
            match resolve_listen_addr(listen.as_ref(), port) {
                Ok(bind_addr) => Ok(Task::Pipe { room_id, quality, timeout, bind_addr }),
                Err(e) => Err(e),
            }
        },
        Commands::Record { room_id, format, output, quality, timeout, no_video, no_audio } => {
            let format_arg: Option<&str> = match &format {
                Some(f) => Some(f.as_str()),
                None => None,
            };
            let path: Option<&str> = match &output {
                Some(o) => Some(o.as_str()),
                None => None,
            };
            match resolve_format(format_arg, path) {
                Ok(f) => Ok(
                    Task::Record { room_id, format: f, output, quality, timeout, no_video, no_audio },
                ),
                Err(e) => Err(e),
            }
        },
    }
}

} // verus!
