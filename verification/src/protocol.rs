//! Typed commands decoded from host messages, and the plugin configuration
//! derived from startup options.
//!
//! The transport itself (message framing, host calls) lives outside the
//! crate; these functions only turn an already-received (name, payload) pair
//! into a typed command, and startup option values into a configuration.

use vstd::prelude::*;
use vstd::string::StrSliceExecFns;
use crate::chars::chars_of;
use crate::errors::PluginError;

verus! {

/// The message name that requests a filesystem scan for candidates.
pub const PATHFINDER_COMMAND_SCAN_REPOSITORY_ROOT: &'static str = "scan_repository_root";

/// The message name that requests running external programs, resolved via
/// the currently selected candidate.
pub const PATHFINDER_COMMAND_RUN_EXTERNAL_PROGRAM: &'static str = "run_external_program";

/// The builtin layout used when the configuration names none, or an unknown
/// one.
pub const DEFAULT_BUILTIN_LAYOUT: &'static str = "default";

/// Where new sessions are loaded: a layout by name, file, inline text or URL.
pub enum LayoutInfo {
    BuiltIn(String),
    File(String),
    Stringified(String),
    Url(String),
}

/// The mathematical value of a [`LayoutInfo`].
pub enum LayoutInfoV {
    BuiltIn(Seq<char>),
    File(Seq<char>),
    Stringified(Seq<char>),
    Url(Seq<char>),
}

impl View for LayoutInfo {
    type V = LayoutInfoV;

    open spec fn view(&self) -> LayoutInfoV {
        match self {
            LayoutInfo::BuiltIn(s) => LayoutInfoV::BuiltIn(s@),
            LayoutInfo::File(s) => LayoutInfoV::File(s@),
            LayoutInfo::Stringified(s) => LayoutInfoV::Stringified(s@),
            LayoutInfo::Url(s) => LayoutInfoV::Url(s@),
        }
    }
}

/// The position of the first `c` in `s`, if any.
pub open spec fn find_char(s: Seq<char>, c: char) -> Option<int>
    decreases s.len(),
{
    if s.len() == 0 {
        Option::None
    } else if s[0] == c {
        Option::Some(0)
    } else {
        match find_char(s.drop_first(), c) {
            Option::Some(i) => Option::Some(i + 1),
            Option::None => Option::None,
        }
    }
}

/// Scanning front to back is how [`find_char`] is computed: a hit at `i`
/// after `i` misses is the first one, and a full scan of misses means there
/// is none.
pub proof fn lemma_find_char_prefix(s: Seq<char>, c: char, i: int)
    requires
        0 <= i <= s.len(),
        forall|j: int| 0 <= j < i ==> s[j] != c,
    ensures
        (i < s.len() && s[i] == c) ==> find_char(s, c) == Option::Some(i),
        i == s.len() ==> find_char(s, c) is None,
    decreases i,
{
    if i == 0 {
    } else {
        assert(s[0] != c);
        lemma_find_char_prefix(s.drop_first(), c, i - 1);
    }
}

/// What the configuration's `layout` option means: absent, colon-free or
/// unknown schemes fall back to the builtin default; otherwise the text
/// before the first colon picks the kind and the text after it is the name.
pub open spec fn spec_parse_layout(layout: Option<Seq<char>>) -> LayoutInfoV {
    match layout {
        Option::None => LayoutInfoV::BuiltIn("default"@),
        Option::Some(s) => match find_char(s, ':') {
            Option::None => LayoutInfoV::BuiltIn("default"@),
            Option::Some(i) => {
                let scheme = s.take(i);
                let name = s.skip(i + 1);
                if scheme == "builtin"@ {
                    LayoutInfoV::BuiltIn(name)
                } else if scheme == "file"@ {
                    LayoutInfoV::File(name)
                } else if scheme == "stringified"@ {
                    LayoutInfoV::Stringified(name)
                } else if scheme == "url"@ {
                    LayoutInfoV::Url(name)
                } else {
                    LayoutInfoV::BuiltIn("default"@)
                }
            },
        },
    }
}

/// The view of an optional string.
pub open spec fn opt_chars(o: Option<String>) -> Option<Seq<char>> {
    match o {
        Option::Some(s) => Option::Some(s@),
        Option::None => Option::None,
    }
}

/// The first colon of `s`, scanning by character.
fn find_colon(s: &str) -> (r: Option<usize>)
    ensures
        r is Some <==> find_char(s@, ':') is Some,
        r is Some ==> find_char(s@, ':') == Option::Some(r->0 as int) && (r->0 as int) < s@.len(),
{
    let n = s.unicode_len();
    let mut i: usize = 0;
    while i < n
        invariant
            n == s@.len(),
            0 <= i <= n,
            forall|j: int| 0 <= j < i ==> s@[j] != ':',
        decreases n - i,
    {
        if s.get_char(i) == ':' {
            proof {
                lemma_find_char_prefix(s@, ':', i as int);
            }
            return Some(i);
        }
        i = i + 1;
    }
    proof {
        lemma_find_char_prefix(s@, ':', n as int);
    }
    None
}

/// Parse the configuration's `layout` option; see [`spec_parse_layout`].
pub fn parse_layout(layout: &Option<String>) -> (r: LayoutInfo)
    ensures
        r@ == spec_parse_layout(
            match layout {
                Option::Some(s) => Option::Some(s@),
                Option::None => Option::None,
            },
        ),
{
    let s: &String = match layout {
        Option::Some(s) => s,
        Option::None => {
            return LayoutInfo::BuiltIn(DEFAULT_BUILTIN_LAYOUT.to_owned());
        },
    };
    let st: &str = s.as_str();
    let i: usize = match find_colon(st) {
        Option::Some(i) => i,
        Option::None => {
            return LayoutInfo::BuiltIn(DEFAULT_BUILTIN_LAYOUT.to_owned());
        },
    };
    let n = st.unicode_len();
    let scheme: String = st.substring_char(0, i).to_owned();
    let name: String = st.substring_char(i + 1, n).to_owned();
    proof {
        assert(scheme@ =~= st@.take(i as int));
        assert(name@ =~= st@.skip(i + 1 as int));
    }
    if scheme == "builtin".to_owned() {
        LayoutInfo::BuiltIn(name)
    } else if scheme == "file".to_owned() {
        LayoutInfo::File(name)
    } else if scheme == "stringified".to_owned() {
        LayoutInfo::Stringified(name)
    } else if scheme == "url".to_owned() {
        LayoutInfo::Url(name)
    } else {
        LayoutInfo::BuiltIn(DEFAULT_BUILTIN_LAYOUT.to_owned())
    }
}

/// Whether `c` is a decimal digit.
pub open spec fn is_digit(c: char) -> bool {
    48 <= (c as u32) && (c as u32) <= 57
}

/// The value of the digit `c`.
pub open spec fn digit_val(c: char) -> int {
    (c as u32) as int - 48
}

/// Whether every character of `s` is a decimal digit.
pub open spec fn all_digits(s: Seq<char>) -> bool {
    forall|i: int| 0 <= i < s.len() ==> is_digit(#[trigger] s[i])
}

/// The number written by the digit string `s`, most significant first.
pub open spec fn decimal_value(s: Seq<char>) -> int
    decreases s.len(),
{
    if s.len() == 0 {
        0
    } else {
        decimal_value(s.drop_last()) * 10 + digit_val(s.last())
    }
}

/// The digits of a number as `str::parse::<usize>` reads it: an optional
/// leading plus sign is skipped.
pub open spec fn digits_part(s: Seq<char>) -> Seq<char> {
    if s.len() > 0 && s[0] == '+' {
        s.drop_first()
    } else {
        s
    }
}

/// Whether `s` is a decimal `usize`: a non-empty digit string, after an
/// optional leading plus sign, whose value fits.
pub open spec fn is_valid_usize(s: Seq<char>) -> bool {
    &&& digits_part(s).len() > 0
    &&& all_digits(digits_part(s))
    &&& decimal_value(digits_part(s)) <= usize::MAX
}

/// A digit string's value is never negative.
pub proof fn lemma_decimal_nonneg(s: Seq<char>)
    requires
        all_digits(s),
    ensures
        decimal_value(s) >= 0,
    decreases s.len(),
{
    if s.len() > 0 {
        assert(all_digits(s.drop_last()));
        lemma_decimal_nonneg(s.drop_last());
    }
}

/// A digit string is worth at least any of its prefixes.
pub proof fn lemma_decimal_prefix_le(s: Seq<char>, i: int)
    requires
        all_digits(s),
        0 <= i <= s.len(),
    ensures
        decimal_value(s.take(i)) <= decimal_value(s),
    decreases s.len(),
{
    if i == s.len() {
        assert(s.take(i) =~= s);
    } else {
        let d = s.drop_last();
        assert(all_digits(d));
        assert(d.take(i) =~= s.take(i));
        lemma_decimal_prefix_le(d, i);
        lemma_decimal_nonneg(d);
    }
}

/// The value of the digit run of `s` starting at `start`, when the whole of
/// it is digits and the value fits a `usize`.
fn parse_usize_from(s: &Vec<char>, start: usize) -> (r: Option<usize>)
    requires
        start as int <= s@.len(),
    ensures
        r is Some <==> (s@.skip(start as int).len() > 0 && all_digits(s@.skip(start as int))
            && decimal_value(s@.skip(start as int)) <= usize::MAX),
        r is Some ==> r->0 as int == decimal_value(s@.skip(start as int)),
{
    let ghost ds = s@.skip(start as int);
    if s.len() == start {
        proof {
            assert(ds.len() == 0);
        }
        return None;
    }
    let mut acc: usize = 0;
    let mut i: usize = start;
    while i < s.len()
        invariant
            start as int <= s@.len(),
            ds == s@.skip(start as int),
            start <= i <= s@.len(),
            forall|j: int| start as int <= j < i as int ==> is_digit(#[trigger] s@[j]),
            acc as int == decimal_value(s@.subrange(start as int, i as int)),
        decreases s@.len() - i,
    {
        let c = s[i];
        let cu = c as u32;
        if cu < 48 || cu > 57 {
            proof {
                assert(ds[i - start as int] == s@[i as int]);
                assert(!is_digit(ds[i - start as int]));
            }
            return None;
        }
        let d = (cu - 48) as usize;
        proof {
            assert(s@.subrange(start as int, i + 1 as int).drop_last() =~= s@.subrange(
                start as int,
                i as int,
            ));
            assert(s@.subrange(start as int, i + 1 as int).last() == s@[i as int]);
        }
        let overflow: bool = if acc > usize::MAX / 10 {
            true
        } else {
            proof {
                assert(acc * 10 <= (usize::MAX / 10) * 10 <= usize::MAX) by (nonlinear_arith)
                    requires
                        acc <= usize::MAX / 10,
                ;
            }
            let acc10 = acc * 10;
            if acc10 > usize::MAX - d {
                true
            } else {
                acc = acc10 + d;
                false
            }
        };
        if overflow {
            proof {
                let upto = s@.subrange(start as int, i + 1 as int);
                assert(decimal_value(upto) == acc * 10 + digit_val(s@[i as int]));
                if acc > usize::MAX / 10 {
                    vstd::arithmetic::div_mod::lemma_fundamental_div_mod(usize::MAX as int, 10);
                    vstd::arithmetic::div_mod::lemma_mod_bound(usize::MAX as int, 10);
                    assert(acc as int >= usize::MAX as int / 10 + 1);
                    assert(acc as int * 10 >= (usize::MAX as int / 10) * 10 + 10);
                }
                assert(decimal_value(upto) > usize::MAX);
                if all_digits(ds) && decimal_value(ds) <= usize::MAX {
                    assert(ds.take(i + 1 - start as int) =~= upto);
                    lemma_decimal_prefix_le(ds, i + 1 - start as int);
                }
            }
            return None;
        }
        i = i + 1;
    }
    proof {
        assert(s@.subrange(start as int, s@.len() as int) =~= ds);
        assert forall|j: int| 0 <= j < ds.len() implies is_digit(#[trigger] ds[j]) by {
            assert(ds[j] == s@[j + start as int]);
        }
    }
    Some(acc)
}

/// A typed request decoded from a host message.
pub enum PathFinderPluginCommand {
    /// The message could not be understood; the error says why.
    PluginCommandError(PluginError),
    /// Scan the plugin's working directory for candidates, descending at
    /// most `max_depth` levels; `usize::MAX` means unbounded.
    ScanRepositoryRoot { max_depth: usize },
    /// Run the given external programs, resolved via the currently selected
    /// candidate.
    RunExternalProgram { programs: Vec<Vec<char>> },
}

/// What a scan request's payload means: no payload asks for an unbounded
/// scan, a decimal payload bounds the depth, anything else is a
/// configuration error carrying the message name and the payload.
pub open spec fn spec_scan_command(name: String, payload: Option<String>) -> PathFinderPluginCommand {
    match payload {
        Option::None => PathFinderPluginCommand::ScanRepositoryRoot { max_depth: usize::MAX },
        Option::Some(p) => if is_valid_usize(p@) {
            PathFinderPluginCommand::ScanRepositoryRoot {
                max_depth: decimal_value(digits_part(p@)) as usize,
            }
        } else {
            PathFinderPluginCommand::PluginCommandError(
                PluginError::ConfigurationError { name, payload: p },
            )
        },
    }
}

/// Decode the payload of a scan request; see [`spec_scan_command`].
pub fn parse_scan_repository_root_payload(name: String, payload: Option<String>) -> (r:
    PathFinderPluginCommand)
    ensures
        r == spec_scan_command(name, payload),
{
    let p: String = match payload {
        Option::Some(p) => p,
        Option::None => {
            return PathFinderPluginCommand::ScanRepositoryRoot { max_depth: usize::MAX };
        },
    };
    let cs = chars_of(p.as_str());
    let start: usize = if cs.len() > 0 && cs[0] == '+' {
        1
    } else {
        0
    };
    proof {
        assert(digits_part(p@) =~= cs@.skip(start as int));
    }
    match parse_usize_from(&cs, start) {
        Option::Some(max_depth) => PathFinderPluginCommand::ScanRepositoryRoot { max_depth },
        Option::None => PathFinderPluginCommand::PluginCommandError(
            PluginError::ConfigurationError { name, payload: p },
        ),
    }
}

/// The colon-separated segments of `s`; an empty text has none at all.
pub open spec fn split_colon(s: Seq<char>) -> Seq<Seq<char>> {
    if s.len() == 0 {
        Seq::empty()
    } else {
        split_segments(s)
    }
}

/// The colon-separated segments of `s`, one more than there are colons: a
/// leading colon opens with an empty segment, a trailing one ends with one.
pub open spec fn split_segments(s: Seq<char>) -> Seq<Seq<char>>
    decreases s.len(),
{
    if s.len() == 0 {
        seq![Seq::empty()]
    } else if s[0] == ':' {
        seq![Seq::<char>::empty()] + split_segments(s.drop_first())
    } else {
        let rest = split_segments(s.drop_first());
        seq![seq![s[0]] + rest[0]] + rest.skip(1)
    }
}

/// The views of a list of character vectors.
pub open spec fn progs_view(v: Seq<Vec<char>>) -> Seq<Seq<char>> {
    v.map_values(|p: Vec<char>| p@)
}

/// Split `s` at every colon, walking the text back to front.
fn split_colon_chars(s: &Vec<char>) -> (r: Vec<Vec<char>>)
    requires
        s@.len() > 0,
    ensures
        progs_view(r@) == split_segments(s@),
{
    let mut segs: Vec<Vec<char>> = Vec::new();
    segs.push(Vec::new());
    let mut i: usize = s.len();
    proof {
        assert(s@.skip(i as int) =~= Seq::<char>::empty());
        assert(progs_view(segs@) =~= split_segments(s@.skip(i as int)));
    }
    while i > 0
        invariant
            0 <= i <= s@.len(),
            segs@.len() >= 1,
            progs_view(segs@) == split_segments(s@.skip(i as int)),
        decreases i,
    {
        i = i - 1;
        let c = s[i];
        let ghost suffix = s@.skip(i as int);
        proof {
            assert(suffix.len() > 0);
            assert(suffix[0] == s@[i as int]);
            assert(suffix.drop_first() =~= s@.skip(i + 1 as int));
        }
        if c == ':' {
            let fresh: Vec<char> = Vec::new();
            segs.insert(0, fresh);
            proof {
                assert(progs_view(segs@) =~= split_segments(suffix));
            }
        } else {
            let mut first = segs.remove(0);
            first.insert(0, c);
            segs.insert(0, first);
            proof {
                let rest = split_segments(suffix.drop_first());
                assert(first@ =~= seq![c] + rest[0]);
                assert(progs_view(segs@) =~= split_segments(suffix));
            }
        }
    }
    proof {
        assert(s@.skip(0) =~= s@);
    }
    segs
}

/// Decode the payload of a run-external-program request: no payload is a
/// missing-payload error, an empty payload names no program at all, anything
/// else is split at every colon into program paths.
pub fn parse_run_external_program_payload(name: String, payload: Option<String>) -> (r:
    PathFinderPluginCommand)
    ensures
        payload is None ==> r == PathFinderPluginCommand::PluginCommandError(
            PluginError::MissingPipeMessagePayloadError(name),
        ),
        payload is Some ==> (r matches PathFinderPluginCommand::RunExternalProgram { programs }
            && progs_view(programs@) == split_colon(payload->0@)),
{
    let p: String = match payload {
        Option::Some(p) => p,
        Option::None => {
            return PathFinderPluginCommand::PluginCommandError(
                PluginError::MissingPipeMessagePayloadError(name),
            );
        },
    };
    if p.as_str().unicode_len() == 0 {
        let programs: Vec<Vec<char>> = Vec::new();
        proof {
            assert(progs_view(programs@) =~= Seq::<Seq<char>>::empty());
        }
        return PathFinderPluginCommand::RunExternalProgram { programs };
    }
    let cs = chars_of(p.as_str());
    let programs = split_colon_chars(&cs);
    PathFinderPluginCommand::RunExternalProgram { programs }
}

/// Decode a host message into a typed command by its name: a scan request, a
/// run request, or an unknown-message error carrying the name.
pub fn from_pipe_message(name: String, payload: Option<String>) -> (r: PathFinderPluginCommand)
    ensures
        name@ == PATHFINDER_COMMAND_SCAN_REPOSITORY_ROOT@ ==> r == spec_scan_command(
            name,
            payload,
        ),
        name@ != PATHFINDER_COMMAND_SCAN_REPOSITORY_ROOT@ && name@
            == PATHFINDER_COMMAND_RUN_EXTERNAL_PROGRAM@ ==> {
            &&& payload is None ==> r == PathFinderPluginCommand::PluginCommandError(
                PluginError::MissingPipeMessagePayloadError(name),
            )
            &&& payload is Some ==> (r matches PathFinderPluginCommand::RunExternalProgram {
                programs,
            } && progs_view(programs@) == split_colon(payload->0@))
        },
        name@ != PATHFINDER_COMMAND_SCAN_REPOSITORY_ROOT@ && name@
            != PATHFINDER_COMMAND_RUN_EXTERNAL_PROGRAM@ ==> r
            == PathFinderPluginCommand::PluginCommandError(
            PluginError::UnknownPipeMessageError(name),
        ),
{
    if name == PATHFINDER_COMMAND_SCAN_REPOSITORY_ROOT.to_owned() {
        parse_scan_repository_root_payload(name, payload)
    } else if name == PATHFINDER_COMMAND_RUN_EXTERNAL_PROGRAM.to_owned() {
        parse_run_external_program_payload(name, payload)
    } else {
        PathFinderPluginCommand::PluginCommandError(PluginError::UnknownPipeMessageError(name))
    }
}

/// A message synthesized from the startup configuration, to be piped to the
/// plugin once it is up.
pub struct StartupMessage {
    /// The message name; one of the command names above, typically.
    pub name: String,
    /// The message payload, if the configuration carries one.
    pub payload: Option<String>,
}

/// The plugin's startup configuration.
pub struct PathFinderPluginConfig {
    /// Layout to load new sessions into; the builtin `default` layout unless
    /// configured otherwise.
    pub layout: LayoutInfo,
    /// Synthesized from the startup configuration when it holds a
    /// `startup_message_name` key.
    pub pipe_message: Option<StartupMessage>,
    /// Whether to kill the session after switching away; set exactly when a
    /// startup message is configured.
    pub kill_after_switch: bool,
}

impl Default for PathFinderPluginConfig {
    /// The configuration before any options are read: builtin default
    /// layout, no startup message, no kill after switching.
    fn default() -> (r: Self)
        ensures
            r.layout@ == LayoutInfoV::BuiltIn("default"@),
            r.pipe_message is None,
            r.kill_after_switch == false,
    {
        PathFinderPluginConfig {
            layout: LayoutInfo::BuiltIn(DEFAULT_BUILTIN_LAYOUT.to_owned()),
            pipe_message: Option::None,
            kill_after_switch: false,
        }
    }
}

impl PathFinderPluginConfig {
    /// Load the startup options: the `layout` option picks the layout, and a
    /// `startup_message_name` option, with its optional payload, synthesizes
    /// the startup message and arms kill-after-switch.
    pub fn load(
        &mut self,
        layout: Option<String>,
        message_name: Option<String>,
        message_payload: Option<String>,
    )
        ensures
            final(self).layout@ == spec_parse_layout(opt_chars(layout)),
            message_name matches Option::Some(n) ==> (final(self).pipe_message matches Option::Some(
                m,
            ) && m.name == n && m.payload == message_payload),
            message_name is None ==> final(self).pipe_message is None,
            final(self).kill_after_switch == (message_name is Some),
    {
        self.layout = parse_layout(&layout);
        self.pipe_message = match message_name {
            Option::Some(n) => Option::Some(StartupMessage { name: n, payload: message_payload }),
            Option::None => Option::None,
        };
        self.kill_after_switch = match &self.pipe_message {
            Option::Some(_) => true,
            Option::None => false,
        };
    }
}

} // verus!
