//! Command-line parsing: `ocu [--plain] [--localhost | --host <ssh-target>]`.

use vstd::prelude::*;

use crate::text::{has_prefix, lemma_blank_trims_to_empty, spec_is_blank, text_equals, trim};

verus! {

/// How the usage snapshot is shown.
#[derive(Debug, Clone, Copy, PartialEq, Eq, Structural)]
pub enum OutputMode {
    /// Terminal cards.
    Ratatui,
    /// Pretty-printed JSON.
    Plain,
}

/// Where the usage payload is fetched.
#[derive(Debug, Clone, PartialEq, Eq)]
pub enum UsageSource {
    /// On the given SSH target.
    Remote(String),
    /// On this machine.
    Localhost,
}

/// What the command line asks for.
#[derive(Debug, Clone, PartialEq, Eq)]
pub struct AppConfig {
    pub output_mode: OutputMode,
    pub source: UsageSource,
}

/// Why a command line is refused.
#[derive(Debug, Clone, PartialEq, Eq)]
pub enum ArgsError {
    /// `--localhost` or `--host` was given more than once.
    ConflictingSources,
    /// `--host` without a non-blank SSH target.
    MissingHost,
    /// An argument that is not an option of `ocu`.
    UnexpectedArgument(String),
}

/// A configuration, with the SSH target as text (`None` for localhost).
pub struct ConfigModel {
    pub output_mode: OutputMode,
    pub host: Option<Seq<char>>,
}

/// A refusal, with the offending argument as text.
pub enum ArgsFault {
    ConflictingSources,
    MissingHost,
    UnexpectedArgument(Seq<char>),
}

impl View for AppConfig {
    type V = ConfigModel;

    open spec fn view(&self) -> ConfigModel {
        ConfigModel {
            output_mode: self.output_mode,
            host: match self.source {
                UsageSource::Remote(h) => Some(h@),
                UsageSource::Localhost => None,
            },
        }
    }
}

impl View for ArgsError {
    type V = ArgsFault;

    open spec fn view(&self) -> ArgsFault {
        match self {
            ArgsError::ConflictingSources => ArgsFault::ConflictingSources,
            ArgsError::MissingHost => ArgsFault::MissingHost,
            ArgsError::UnexpectedArgument(a) => ArgsFault::UnexpectedArgument(a@),
        }
    }
}

/// What has been read of a command line so far.
pub struct ParseState {
    pub output_mode: OutputMode,
    pub host: Option<Seq<char>>,
    /// `--localhost` or `--host` has been seen.
    pub source_selected: bool,
    /// The last argument was `--host`, whose target comes next.
    pub awaiting_host: bool,
}

/// Nothing read yet: cards, from localhost.
pub open spec fn initial_state() -> ParseState {
    ParseState { output_mode: OutputMode::Ratatui, host: None, source_selected: false, awaiting_host: false }
}

/// The prefix that carries an SSH target in the same argument.
pub open spec fn host_assignment() -> Seq<char> {
    "--host="@
}

/// Reads one more argument.
pub open spec fn step(st: ParseState, arg: Seq<char>) -> Result<ParseState, ArgsFault> {
    if st.awaiting_host {
        if spec_is_blank(arg) {
            Err(ArgsFault::MissingHost)
        } else {
            Ok(ParseState { host: Some(arg), awaiting_host: false, ..st })
        }
    } else if arg == "--plain"@ {
        Ok(ParseState { output_mode: OutputMode::Plain, ..st })
    } else if arg == "--localhost"@ {
        if st.source_selected {
            Err(ArgsFault::ConflictingSources)
        } else {
            Ok(ParseState { host: None, source_selected: true, ..st })
        }
    } else if arg == "--host"@ {
        if st.source_selected {
            Err(ArgsFault::ConflictingSources)
        } else {
            Ok(ParseState { source_selected: true, awaiting_host: true, ..st })
        }
    } else if host_assignment().is_prefix_of(arg) {
        let host = arg.skip(host_assignment().len() as int);
        if st.source_selected {
            Err(ArgsFault::ConflictingSources)
        } else if spec_is_blank(host) {
            Err(ArgsFault::MissingHost)
        } else {
            Ok(ParseState { host: Some(host), source_selected: true, ..st })
        }
    } else {
        Err(ArgsFault::UnexpectedArgument(arg))
    }
}

/// Reads the arguments from left to right; the first refusal stands.
pub open spec fn scan(args: Seq<Seq<char>>) -> Result<ParseState, ArgsFault>
    decreases args.len(),
{
    if args.len() == 0 {
        Ok(initial_state())
    } else {
        match scan(args.drop_last()) {
            Ok(st) => step(st, args.last()),
            Err(e) => Err(e),
        }
    }
}

/// The configuration that a command line asks for, or why it is refused.
pub open spec fn spec_parse_args(args: Seq<Seq<char>>) -> Result<ConfigModel, ArgsFault> {
    match scan(args) {
        Err(e) => Err(e),
        Ok(st) => if st.awaiting_host {
            Err(ArgsFault::MissingHost)
        } else {
            Ok(ConfigModel { output_mode: st.output_mode, host: st.host })
        },
    }
}

/// A refusal met on a prefix of the arguments is the refusal of the whole.
proof fn lemma_scan_error_persists(args: Seq<Seq<char>>, k: int, e: ArgsFault)
    requires
        0 <= k <= args.len(),
        scan(args.take(k)) == Err::<ParseState, ArgsFault>(e),
    ensures
        scan(args) == Err::<ParseState, ArgsFault>(e),
    decreases args.len() - k,
{
    if k < args.len() {
        let t = args.take(k + 1);
        assert(t.drop_last() =~= args.take(k));
        lemma_scan_error_persists(args, k + 1, e);
    } else {
        assert(args.take(k) =~= args);
    }
}

proof fn lemma_scan_next(args: Seq<Seq<char>>, k: int)
    requires
        0 <= k < args.len(),
    ensures
        scan(args.take(k + 1)) == (match scan(args.take(k)) {
            Ok(st) => step(st, args[k]),
            Err(e) => Err(e),
        }),
{
    assert(args.take(k + 1).drop_last() =~= args.take(k));
}

/// Reads the command line (without the program name).
pub fn parse_args(args: Vec<String>) -> (r: Result<AppConfig, ArgsError>)
    ensures
        match r {
            Ok(config) => spec_parse_args(args.deep_view()) == Ok::<ConfigModel, ArgsFault>(config@),
            Err(e) => spec_parse_args(args.deep_view()) == Err::<ConfigModel, ArgsFault>(e@),
        },
{
    let ghost all = args.deep_view();
    let n = args.len();
    let mut output_mode = OutputMode::Ratatui;
    let mut host: Option<String> = None;
    let mut source_selected = false;
    let mut i: usize = 0;
    proof {
        reveal_strlit("--host=");
        assert(all.take(0) =~= Seq::<Seq<char>>::empty());
    }
    while i < n
        invariant
            n == args.len(),
            all == args.deep_view(),
            i <= n,
            scan(all.take(i as int)) == Ok::<ParseState, ArgsFault>(ParseState {
                output_mode,
                host: match host { Some(h) => Some(h@), None => None },
                source_selected,
                awaiting_host: false,
            }),
            host_assignment().len() == 7,
        decreases n - i,
    {
        let arg = args[i].as_str();
        assert(all[i as int] == arg@);
        proof { lemma_scan_next(all, i as int); }
        if text_equals(arg, "--plain") {
            output_mode = OutputMode::Plain;
            i = i + 1;
        } else if text_equals(arg, "--localhost") {
            if source_selected {
                proof { lemma_scan_error_persists(all, i + 1, ArgsFault::ConflictingSources); }
                return Err(ArgsError::ConflictingSources);
            }
            host = None;
            source_selected = true;
            i = i + 1;
        } else if text_equals(arg, "--host") {
            if source_selected {
                proof { lemma_scan_error_persists(all, i + 1, ArgsFault::ConflictingSources); }
                return Err(ArgsError::ConflictingSources);
            }
            if i + 1 >= n {
                assert(all.take(i + 1) =~= all);
                return Err(ArgsError::MissingHost);
            }
            let target = args[i + 1].as_str();
            assert(all[i + 1] == target@);
            proof {
                lemma_scan_next(all, i + 1);
                lemma_blank_trims_to_empty(target@);
            }
            if trim(target).is_empty() {
                proof { lemma_scan_error_persists(all, i + 2, ArgsFault::MissingHost); }
                return Err(ArgsError::MissingHost);
            }
            host = Some(target.to_owned());
            source_selected = true;
            i = i + 2;
        } else if has_prefix(arg, "--host=") {
            if source_selected {
                proof { lemma_scan_error_persists(all, i + 1, ArgsFault::ConflictingSources); }
                return Err(ArgsError::ConflictingSources);
            }
            let target = arg.substring_char(7, arg.unicode_len());
            assert(target@ =~= arg@.skip(7));
            proof { lemma_blank_trims_to_empty(target@); }
            if trim(target).is_empty() {
                proof { lemma_scan_error_persists(all, i + 1, ArgsFault::MissingHost); }
                return Err(ArgsError::MissingHost);
            }
            host = Some(target.to_owned());
            source_selected = true;
            i = i + 1;
        } else {
            let unexpected = args[i].clone();
            proof {
                lemma_scan_error_persists(all, i + 1, ArgsFault::UnexpectedArgument(arg@));
            }
            return Err(ArgsError::UnexpectedArgument(unexpected));
        }
    }
    assert(all.take(n as int) =~= all);
    let source = match host {
        Some(h) => UsageSource::Remote(h),
        None => UsageSource::Localhost,
    };
    Ok(AppConfig { output_mode, source })
}


/// The text that `ArgsError::message` gives for a refusal.
pub open spec fn spec_message(e: ArgsFault) -> Seq<char> {
    match e {
        ArgsFault::ConflictingSources => "choose only one usage source: --localhost or --host"@,
        ArgsFault::MissingHost => "--host requires an SSH target"@,
        ArgsFault::UnexpectedArgument(a) => "unexpected argument `"@ + a
            + "`; usage: ocu [--plain] [--localhost | --host <ssh-target>]"@,
    }
}

impl ArgsError {
    /// The message shown to the user for this refusal.
    pub fn message(&self) -> (r: String)
        ensures
            r@ == spec_message(self@),
    {
        match self {
            ArgsError::ConflictingSources => "choose only one usage source: --localhost or --host".to_owned(),
            ArgsError::MissingHost => "--host requires an SSH target".to_owned(),
            ArgsError::UnexpectedArgument(a) => {
                let mut m = "unexpected argument `".to_owned();
                m.append(a.as_str());
                m.append("`; usage: ocu [--plain] [--localhost | --host <ssh-target>]");
                m
            },
        }
    }
}

/// The arguments read so far have chosen a source (`--localhost` or `--host`).
pub open spec fn selects_source(args: Seq<Seq<char>>) -> bool {
    match scan(args) {
        Ok(st) => st.source_selected,
        Err(_) => false,
    }
}

/// An argument that names a source: `--localhost`, `--host` or `--host=...`.
pub open spec fn is_source_option(arg: Seq<char>) -> bool {
    arg == "--localhost"@ || arg == "--host"@ || host_assignment().is_prefix_of(arg)
}

/// An argument that is one of the options of `ocu`.
pub open spec fn is_option(arg: Seq<char>) -> bool {
    arg == "--plain"@ || is_source_option(arg)
}

proof fn lemma_literals()
    ensures
        host_assignment().len() == 7,
        "--plain"@ != "--localhost"@,
        "--plain"@ != "--host"@,
        "--localhost"@ != "--host"@,
        !host_assignment().is_prefix_of("--plain"@),
        !host_assignment().is_prefix_of("--localhost"@),
        !host_assignment().is_prefix_of("--host"@),
{
    reveal_strlit("--host=");
    reveal_strlit("--plain");
    reveal_strlit("--localhost");
    reveal_strlit("--host");
    assert("--plain"@[2] != "--localhost"@[2]);
    assert("--plain"@.len() != "--host"@.len());
    assert("--localhost"@.len() != "--host"@.len());
    assert(host_assignment()[2] != "--plain"@[2]);
    assert(host_assignment()[2] != "--localhost"@[2]);
}

proof fn lemma_scan_push(args: Seq<Seq<char>>, x: Seq<char>)
    ensures
        scan(args.push(x)) == (match scan(args) {
            Ok(st) => step(st, x),
            Err(e) => Err(e),
        }),
{
    assert(args.push(x).drop_last() =~= args);
}

proof fn lemma_assignment_shape(h: Seq<char>)
    ensures
        host_assignment().is_prefix_of(host_assignment() + h),
        (host_assignment() + h).skip(7) == h,
        (host_assignment() + h) != "--plain"@,
        (host_assignment() + h) != "--localhost"@,
        (host_assignment() + h) != "--host"@,
{
    lemma_literals();
    let a = host_assignment() + h;
    assert(a.skip(7) =~= h);
    assert(a.subrange(0, 7) =~= host_assignment());
    reveal_strlit("--host=");
    reveal_strlit("--plain");
    reveal_strlit("--localhost");
    reveal_strlit("--host");
    assert(a[2] == 'h');
    assert("--plain"@[2] != 'h');
    assert("--localhost"@[2] != 'h');
    assert(a.len() >= 7);
}

/// With no arguments, `ocu` draws cards from localhost.
pub proof fn law_no_arguments_default()
    ensures
        spec_parse_args(Seq::empty()) == Ok::<ConfigModel, ArgsFault>(
            ConfigModel { output_mode: OutputMode::Ratatui, host: None },
        ),
{
}

/// `--localhost` and `--host` are mutually exclusive: once a source is
/// chosen, a second source option is refused.
pub proof fn law_one_source_only(args: Seq<Seq<char>>, arg: Seq<char>)
    requires
        spec_parse_args(args) is Ok,
        selects_source(args),
        is_source_option(arg),
    ensures
        spec_parse_args(args.push(arg)) == Err::<ConfigModel, ArgsFault>(ArgsFault::ConflictingSources),
{
    lemma_literals();
    lemma_scan_push(args, arg);
}

/// `--localhost` names the default source: before any source is chosen it
/// leaves an accepted command line as it was.
pub proof fn law_localhost_is_default(args: Seq<Seq<char>>)
    requires
        spec_parse_args(args) is Ok,
        !selects_source(args),
    ensures
        spec_parse_args(args.push("--localhost"@)) == spec_parse_args(args),
{
    lemma_literals();
    lemma_scan_push(args, "--localhost"@);
    lemma_unselected_has_no_host(args);
}

/// While no source is chosen, the host is localhost.
proof fn lemma_unselected_has_no_host(args: Seq<Seq<char>>)
    requires
        scan(args) is Ok,
    ensures
        !scan(args)->Ok_0.source_selected ==> scan(args)->Ok_0.host is None,
        !scan(args)->Ok_0.source_selected ==> !scan(args)->Ok_0.awaiting_host,
    decreases args.len(),
{
    if args.len() > 0 {
        lemma_scan_push(args.drop_last(), args.last());
        assert(args.drop_last().push(args.last()) =~= args);
        lemma_unselected_has_no_host(args.drop_last());
    }
}

/// `--host <target>` and `--host=<target>` choose a non-blank SSH target,
/// provided no source was chosen before.
pub proof fn law_host_selects_target(args: Seq<Seq<char>>, target: Seq<char>)
    requires
        spec_parse_args(args) is Ok,
        !selects_source(args),
        !spec_is_blank(target),
    ensures
        spec_parse_args(args.push("--host"@).push(target)) == Ok::<ConfigModel, ArgsFault>(ConfigModel {
            output_mode: spec_parse_args(args)->Ok_0.output_mode,
            host: Some(target),
        }),
        spec_parse_args(args.push(host_assignment() + target)) == Ok::<ConfigModel, ArgsFault>(ConfigModel {
            output_mode: spec_parse_args(args)->Ok_0.output_mode,
            host: Some(target),
        }),
{
    lemma_literals();
    lemma_assignment_shape(target);
    lemma_scan_push(args, "--host"@);
    lemma_scan_push(args.push("--host"@), target);
    lemma_scan_push(args, host_assignment() + target);
}

/// A blank SSH target is refused, in either form.
pub proof fn law_blank_target_refused(args: Seq<Seq<char>>, target: Seq<char>)
    requires
        spec_parse_args(args) is Ok,
        !selects_source(args),
        spec_is_blank(target),
    ensures
        spec_parse_args(args.push("--host"@).push(target)) == Err::<ConfigModel, ArgsFault>(ArgsFault::MissingHost),
        spec_parse_args(args.push(host_assignment() + target)) == Err::<ConfigModel, ArgsFault>(ArgsFault::MissingHost),
        spec_parse_args(args.push("--host"@)) == Err::<ConfigModel, ArgsFault>(ArgsFault::MissingHost),
{
    lemma_literals();
    lemma_assignment_shape(target);
    lemma_scan_push(args, "--host"@);
    lemma_scan_push(args.push("--host"@), target);
    lemma_scan_push(args, host_assignment() + target);
}

/// Anything that is not an option of `ocu`, after an accepted command line,
/// is refused and named in the refusal.
pub proof fn law_unknown_argument_refused(args: Seq<Seq<char>>, arg: Seq<char>)
    requires
        spec_parse_args(args) is Ok,
        !is_option(arg),
    ensures
        spec_parse_args(args.push(arg)) == Err::<ConfigModel, ArgsFault>(ArgsFault::UnexpectedArgument(arg)),
{
    lemma_scan_push(args, arg);
}

/// A host is never assumed: an accepted command line names a remote
/// target only if one of its arguments carries it, and never a blank one.
pub proof fn law_host_comes_from_arguments(args: Seq<Seq<char>>)
    requires
        spec_parse_args(args) is Ok,
        spec_parse_args(args)->Ok_0.host is Some,
    ensures
        !spec_is_blank(spec_parse_args(args)->Ok_0.host->Some_0),
        exists|i: int|
            0 <= i < args.len() && (#[trigger] args[i] == spec_parse_args(args)->Ok_0.host->Some_0
                || args[i] == host_assignment() + spec_parse_args(args)->Ok_0.host->Some_0),
{
    lemma_scan_host(args);
}

proof fn lemma_scan_host(args: Seq<Seq<char>>)
    requires
        scan(args) is Ok,
    ensures
        scan(args)->Ok_0.host is Some ==> !spec_is_blank(scan(args)->Ok_0.host->Some_0),
        scan(args)->Ok_0.host is Some ==> exists|i: int|
            0 <= i < args.len() && (#[trigger] args[i] == scan(args)->Ok_0.host->Some_0
                || args[i] == host_assignment() + scan(args)->Ok_0.host->Some_0),
    decreases args.len(),
{
    if args.len() > 0 {
        let prev = args.drop_last();
        let x = args.last();
        lemma_scan_push(prev, x);
        assert(prev.push(x) =~= args);
        lemma_scan_host(prev);
        let st = scan(prev)->Ok_0;
        let h = scan(args)->Ok_0.host;
        if h is Some {
            if h == st.host {
                let i = choose|i: int|
                    0 <= i < prev.len() && (#[trigger] prev[i] == st.host->Some_0
                        || prev[i] == host_assignment() + st.host->Some_0);
                assert(args[i] == prev[i]);
            } else {
                let last = args.len() - 1;
                if st.awaiting_host {
                    assert(args[last] == h->Some_0);
                } else {
                    lemma_literals();
                    assert(host_assignment().is_prefix_of(x));
                    assert(x =~= host_assignment() + x.skip(7));
                    assert(args[last] == host_assignment() + h->Some_0);
                }
            }
        }
    }
}


/// The state after reading the first `k` arguments expects an SSH target:
/// argument `k` is the value of a `--host` flag, not a flag itself.
pub open spec fn expects_host_at(args: Seq<Seq<char>>, k: int) -> bool {
    scan(args.take(k)) is Ok && scan(args.take(k))->Ok_0.awaiting_host
}

/// Argument `k` is read as a flag (not as the value of `--host`).
pub open spec fn is_flag_at(args: Seq<Seq<char>>, k: int) -> bool {
    0 <= k < args.len() && !expects_host_at(args, k)
}

/// The command line gives the SSH target `h` at flag `k`, in either form.
pub open spec fn host_given_at(args: Seq<Seq<char>>, k: int, h: Seq<char>) -> bool {
    &&& is_flag_at(args, k)
    &&& ((args[k] == "--host"@ && k + 1 < args.len() && args[k + 1] == h) || args[k] == host_assignment() + h)
}

/// Every flag is an option, at most one flag names a source, and every
/// SSH target given is non-blank.
pub open spec fn well_formed_args(args: Seq<Seq<char>>) -> bool {
    &&& forall|k: int| #[trigger] is_flag_at(args, k) ==> is_option(args[k])
    &&& forall|k1: int, k2: int|
        #[trigger] is_flag_at(args, k1) && #[trigger] is_flag_at(args, k2) && is_source_option(args[k1])
            && is_source_option(args[k2]) ==> k1 == k2
    &&& forall|k: int|
        #[trigger] is_flag_at(args, k) && args[k] == "--host"@ && k + 1 < args.len() ==> !spec_is_blank(
            args[k + 1],
        )
    &&& forall|k: int|
        #[trigger] is_flag_at(args, k) && host_assignment().is_prefix_of(args[k]) ==> !spec_is_blank(
            args[k].skip(7),
        )
}

/// The last argument is a `--host` flag, still waiting for its target.
pub open spec fn ends_expecting_host(args: Seq<Seq<char>>) -> bool {
    args.len() > 0 && is_flag_at(args, args.len() - 1) && args[args.len() - 1] == "--host"@
}

/// Some flag is `--plain`.
pub open spec fn plain_flag_given(args: Seq<Seq<char>>) -> bool {
    exists|k: int| #[trigger] is_flag_at(args, k) && args[k] == "--plain"@
}

/// Some flag names a source.
pub open spec fn source_flag_given(args: Seq<Seq<char>>) -> bool {
    exists|k: int| #[trigger] is_flag_at(args, k) && is_source_option(args[k])
}

proof fn lemma_push_positions(args: Seq<Seq<char>>, x: Seq<char>)
    ensures
        forall|k: int| 0 <= k <= args.len() ==> #[trigger] args.push(x).take(k) == args.take(k),
        forall|k: int| 0 <= k < args.len() ==> #[trigger] args.push(x)[k] == args[k],
        forall|k: int| 0 <= k < args.len() ==> #[trigger] is_flag_at(args.push(x), k) == is_flag_at(args, k),
        is_flag_at(args.push(x), args.len() as int) == !(scan(args) is Ok && scan(args)->Ok_0.awaiting_host),
        args.push(x)[args.len() as int] == x,
{
    assert forall|k: int| 0 <= k <= args.len() implies #[trigger] args.push(x).take(k) == args.take(k) by {
        assert(args.push(x).take(k) =~= args.take(k));
    }
    assert(args.take(args.len() as int) =~= args);
    assert forall|k: int| 0 <= k < args.len() implies #[trigger] is_flag_at(args.push(x), k) == is_flag_at(
        args,
        k,
    ) by {
        assert(args.push(x).take(k) == args.take(k));
    }
}

proof fn lemma_host_given_is_source(args: Seq<Seq<char>>, k: int, h: Seq<char>)
    requires
        host_given_at(args, k, h),
    ensures
        is_source_option(args[k]),
{
    lemma_literals();
    if args[k] == host_assignment() + h {
        lemma_assignment_shape(h);
    }
}

/// What a scan has read: refused exactly when the flags break the rules,
/// and otherwise its state says what the flags gave.
proof fn lemma_scan_facts(args: Seq<Seq<char>>)
    ensures
        (scan(args) is Ok) == well_formed_args(args),
        scan(args) is Ok ==> scan(args)->Ok_0.awaiting_host == ends_expecting_host(args),
        scan(args) is Ok ==> (scan(args)->Ok_0.output_mode == OutputMode::Plain) == plain_flag_given(args),
        scan(args) is Ok ==> scan(args)->Ok_0.source_selected == source_flag_given(args),
        scan(args) is Ok ==> forall|h: Seq<char>|
            (scan(args)->Ok_0.host == Some(h)) == (exists|k: int| #[trigger] host_given_at(args, k, h)),
    decreases args.len(),
{
    lemma_literals();
    if args.len() == 0 {
        assert(!plain_flag_given(args));
        assert(!source_flag_given(args));
        assert forall|h: Seq<char>|
            (scan(args)->Ok_0.host == Some(h)) == (exists|k: int| #[trigger] host_given_at(args, k, h)) by {
            if exists|k: int| #[trigger] host_given_at(args, k, h) {
                let k = choose|k: int| #[trigger] host_given_at(args, k, h);
                assert(is_flag_at(args, k));
            }
        }
        return;
    }
    let prev = args.drop_last();
    let x = args.last();
    let n = prev.len() as int;
    assert(prev.push(x) =~= args);
    lemma_scan_facts(prev);
    lemma_scan_push(prev, x);
    lemma_push_positions(prev, x);
    lemma_unselected_has_no_host_or_wait(prev);
    if scan(prev) is Err {
        // a flag rule broken in the prefix stays broken
        assert(!well_formed_args(args)) by {
            if well_formed_args(args) {
                assert forall|k: int| #[trigger] is_flag_at(prev, k) implies is_option(prev[k]) by {
                    assert(is_flag_at(args, k));
                }
                assert forall|k1: int, k2: int|
                    #[trigger] is_flag_at(prev, k1) && #[trigger] is_flag_at(prev, k2) && is_source_option(prev[k1])
                        && is_source_option(prev[k2]) implies k1 == k2 by {
                    assert(is_flag_at(args, k1) && is_flag_at(args, k2));
                }
                assert forall|k: int|
                    #[trigger] is_flag_at(prev, k) && prev[k] == "--host"@ && k + 1 < prev.len() implies !spec_is_blank(
                        prev[k + 1],
                    ) by {
                    assert(is_flag_at(args, k));
                    assert(args[k + 1] == prev[k + 1]);
                }
                assert forall|k: int|
                    #[trigger] is_flag_at(prev, k) && host_assignment().is_prefix_of(prev[k]) implies !spec_is_blank(
                        prev[k].skip(7),
                    ) by {
                    assert(is_flag_at(args, k));
                }
            }
        }
        return;
    }
    let st = scan(prev)->Ok_0;
    if st.awaiting_host {
        // `x` is the target of the `--host` flag just before it
        assert(ends_expecting_host(prev));
        assert(is_flag_at(args, n - 1) && args[n - 1] == "--host"@);
        assert(!is_flag_at(args, n));
        if spec_is_blank(x) {
            assert(!well_formed_args(args)) by {
                if well_formed_args(args) {
                    assert(is_flag_at(args, n - 1));
                }
            }
        } else {
            lemma_wf_extends(prev, x);
            assert(!ends_expecting_host(args));
            assert(plain_flag_given(args) == plain_flag_given(prev)) by {
                if plain_flag_given(args) {
                    let k = choose|k: int| #[trigger] is_flag_at(args, k) && args[k] == "--plain"@;
                    assert(is_flag_at(prev, k));
                }
                if plain_flag_given(prev) {
                    let k = choose|k: int| #[trigger] is_flag_at(prev, k) && prev[k] == "--plain"@;
                    assert(is_flag_at(args, k));
                }
            }
            assert(source_flag_given(args)) by {
                assert(is_flag_at(args, n - 1) && is_source_option(args[n - 1]));
            }
            assert(source_flag_given(prev)) by {
                assert(is_flag_at(prev, n - 1) && is_source_option(prev[n - 1]));
            }
            assert forall|h: Seq<char>|
                (scan(args)->Ok_0.host == Some(h)) == (exists|k: int| #[trigger] host_given_at(args, k, h)) by {
                if h == x {
                    assert(host_given_at(args, n - 1, h));
                }
                if exists|k: int| #[trigger] host_given_at(args, k, h) {
                    let k = choose|k: int| #[trigger] host_given_at(args, k, h);
                    lemma_host_given_is_source(args, k, h);
                    assert(is_flag_at(args, n - 1) && is_source_option(args[n - 1]));
                    assert(k == n - 1);
                    assert(h == x);
                }
            }
        }
        return;
    }
    // `x` is read as a flag
    assert(is_flag_at(args, n));
    assert(!ends_expecting_host(prev));
    assert(forall|k: int| #[trigger] is_flag_at(prev, k) && prev[k] == "--host"@ ==> k + 1 < prev.len());
    if !is_option(x) {
        assert(!well_formed_args(args)) by {
            if well_formed_args(args) {
                assert(is_flag_at(args, n));
            }
        }
        return;
    }
    if is_source_option(x) && st.source_selected {
        assert(!well_formed_args(args)) by {
            if well_formed_args(args) {
                let k = choose|k: int| #[trigger] is_flag_at(prev, k) && is_source_option(prev[k]);
                assert(is_flag_at(args, k) && is_flag_at(args, n));
            }
        }
        return;
    }
    if host_assignment().is_prefix_of(x) && spec_is_blank(x.skip(7)) {
        assert(x != "--localhost"@ && x != "--host"@);
        assert(!well_formed_args(args)) by {
            if well_formed_args(args) {
                assert(is_flag_at(args, n));
            }
        }
        return;
    }
    // the step accepts `x`
    assert(scan(args) is Ok);
    lemma_wf_flag_extends(prev, x);
    let st2 = scan(args)->Ok_0;
    assert(st2.awaiting_host == (x == "--host"@));
    assert(ends_expecting_host(args) == (x == "--host"@));
    assert(plain_flag_given(args) == (plain_flag_given(prev) || x == "--plain"@)) by {
        if plain_flag_given(args) {
            let k = choose|k: int| #[trigger] is_flag_at(args, k) && args[k] == "--plain"@;
            if k < n {
                assert(is_flag_at(prev, k));
            }
        }
        if plain_flag_given(prev) {
            let k = choose|k: int| #[trigger] is_flag_at(prev, k) && prev[k] == "--plain"@;
            assert(is_flag_at(args, k));
        }
        if x == "--plain"@ {
            assert(is_flag_at(args, n) && args[n] == "--plain"@);
        }
    }
    assert(source_flag_given(args) == (source_flag_given(prev) || is_source_option(x))) by {
        if source_flag_given(args) {
            let k = choose|k: int| #[trigger] is_flag_at(args, k) && is_source_option(args[k]);
            if k < n {
                assert(is_flag_at(prev, k));
            }
        }
        if source_flag_given(prev) {
            let k = choose|k: int| #[trigger] is_flag_at(prev, k) && is_source_option(prev[k]);
            assert(is_flag_at(args, k));
        }
        if is_source_option(x) {
            assert(is_flag_at(args, n) && is_source_option(args[n]));
        }
    }
    assert forall|h: Seq<char>|
        (st2.host == Some(h)) == (exists|k: int| #[trigger] host_given_at(args, k, h)) by {
        if exists|k: int| #[trigger] host_given_at(args, k, h) {
            let k = choose|k: int| #[trigger] host_given_at(args, k, h);
            lemma_host_given_is_source(args, k, h);
            if k < n {
                assert(is_flag_at(prev, k));
                assert(prev[k] == "--host"@ ==> k + 1 < prev.len());
                assert(host_given_at(prev, k, h));
                assert(!is_source_option(x));
            } else {
                assert(k == n);
                if x == host_assignment() + h {
                    lemma_assignment_shape(h);
                    assert(x.skip(7) == h);
                }
            }
        }
        if st2.host == Some(h) {
            if host_assignment().is_prefix_of(x) {
                assert(x =~= host_assignment() + x.skip(7));
                assert(host_given_at(args, n, h));
            } else {
                assert(st.host == Some(h));
                let k = choose|k: int| #[trigger] host_given_at(prev, k, h);
                assert(is_flag_at(args, k));
                assert(host_given_at(args, k, h));
            }
        }
    }
}

proof fn lemma_unselected_has_no_host_or_wait(args: Seq<Seq<char>>)
    ensures
        scan(args) is Ok && !scan(args)->Ok_0.source_selected ==> scan(args)->Ok_0.host is None
            && !scan(args)->Ok_0.awaiting_host,
        scan(args) is Ok && scan(args)->Ok_0.awaiting_host ==> scan(args)->Ok_0.host is None,
    decreases args.len(),
{
    if args.len() > 0 {
        lemma_scan_push(args.drop_last(), args.last());
        assert(args.drop_last().push(args.last()) =~= args);
        lemma_unselected_has_no_host_or_wait(args.drop_last());
    }
}

/// A well-formed prefix awaiting a host stays well-formed with a non-blank target.
proof fn lemma_wf_extends(prev: Seq<Seq<char>>, x: Seq<char>)
    requires
        well_formed_args(prev),
        scan(prev) is Ok,
        scan(prev)->Ok_0.awaiting_host,
        ends_expecting_host(prev),
        !spec_is_blank(x),
    ensures
        well_formed_args(prev.push(x)),
{
    let args = prev.push(x);
    let n = prev.len() as int;
    lemma_push_positions(prev, x);
    assert forall|k: int| #[trigger] is_flag_at(args, k) implies is_option(args[k]) by {
        assert(k < n);
        assert(is_flag_at(prev, k));
    }
    assert forall|k1: int, k2: int|
        #[trigger] is_flag_at(args, k1) && #[trigger] is_flag_at(args, k2) && is_source_option(args[k1])
            && is_source_option(args[k2]) implies k1 == k2 by {
        assert(is_flag_at(prev, k1) && is_flag_at(prev, k2));
    }
    assert forall|k: int|
        #[trigger] is_flag_at(args, k) && args[k] == "--host"@ && k + 1 < args.len() implies !spec_is_blank(
            args[k + 1],
        ) by {
        assert(is_flag_at(prev, k));
        if k + 1 < n {
            assert(args[k + 1] == prev[k + 1]);
        }
    }
    assert forall|k: int|
        #[trigger] is_flag_at(args, k) && host_assignment().is_prefix_of(args[k]) implies !spec_is_blank(
            args[k].skip(7),
        ) by {
        assert(is_flag_at(prev, k));
    }
}

/// A well-formed prefix read to its end, followed by an accepted flag, is well-formed.
proof fn lemma_wf_flag_extends(prev: Seq<Seq<char>>, x: Seq<char>)
    requires
        well_formed_args(prev),
        scan(prev) is Ok,
        !scan(prev)->Ok_0.awaiting_host,
        is_option(x),
        is_source_option(x) ==> !source_flag_given(prev),
        host_assignment().is_prefix_of(x) ==> !spec_is_blank(x.skip(7)),
        forall|k: int| #[trigger] is_flag_at(prev, k) && prev[k] == "--host"@ ==> k + 1 < prev.len(),
    ensures
        well_formed_args(prev.push(x)),
{
    let args = prev.push(x);
    let n = prev.len() as int;
    lemma_push_positions(prev, x);
    assert forall|k: int| #[trigger] is_flag_at(args, k) implies is_option(args[k]) by {
        if k < n {
            assert(is_flag_at(prev, k));
        }
    }
    assert forall|k1: int, k2: int|
        #[trigger] is_flag_at(args, k1) && #[trigger] is_flag_at(args, k2) && is_source_option(args[k1])
            && is_source_option(args[k2]) implies k1 == k2 by {
        if k1 < n && k2 < n {
            assert(is_flag_at(prev, k1) && is_flag_at(prev, k2));
        } else if k1 < n {
            assert(is_flag_at(prev, k1) && is_source_option(prev[k1]));
        } else if k2 < n {
            assert(is_flag_at(prev, k2) && is_source_option(prev[k2]));
        }
    }
    assert forall|k: int|
        #[trigger] is_flag_at(args, k) && args[k] == "--host"@ && k + 1 < args.len() implies !spec_is_blank(
            args[k + 1],
        ) by {
        assert(k < n);
        assert(is_flag_at(prev, k));
        assert(args[k + 1] == prev[k + 1]);
    }
    assert forall|k: int|
        #[trigger] is_flag_at(args, k) && host_assignment().is_prefix_of(args[k]) implies !spec_is_blank(
            args[k].skip(7),
        ) by {
        if k < n {
            assert(is_flag_at(prev, k));
        }
    }
}

/// The whole reading of a command line: it is accepted exactly when every
/// flag is an option, at most one flag names a source, every SSH target is
/// non-blank and no `--host` is left without its target. Then the output
/// is JSON exactly when a flag is `--plain`, and the target is `h` exactly
/// when a `--host` flag gives `h` (as its next argument, or after `=`).
pub proof fn law_parse_args_characterized(args: Seq<Seq<char>>)
    ensures
        (spec_parse_args(args) is Ok) == (well_formed_args(args) && !ends_expecting_host(args)),
        spec_parse_args(args) is Ok ==> ((spec_parse_args(args)->Ok_0.output_mode == OutputMode::Plain)
            == plain_flag_given(args)),
        spec_parse_args(args) is Ok ==> forall|h: Seq<char>|
            (spec_parse_args(args)->Ok_0.host == Some(h)) == (exists|k: int| #[trigger] host_given_at(args, k, h)),
{
    lemma_scan_facts(args);
}

proof fn lemma_step_plain(st: ParseState, x: Seq<char>)
    ensures
        step(ParseState { output_mode: OutputMode::Plain, ..st }, x) == (match step(st, x) {
            Ok(next) => Ok(ParseState { output_mode: OutputMode::Plain, ..next }),
            Err(e) => Err(e),
        }),
{
}

proof fn lemma_insert_plain(args: Seq<Seq<char>>, k: int, n: int)
    requires
        0 <= k <= n <= args.len(),
        scan(args.take(k)) is Ok,
        !scan(args.take(k))->Ok_0.awaiting_host,
    ensures
        scan((args.take(k).push("--plain"@) + args.skip(k)).take(n + 1)) == (match scan(args.take(n)) {
            Ok(st) => Ok(ParseState { output_mode: OutputMode::Plain, ..st }),
            Err(e) => Err(e),
        }),
    decreases n - k,
{
    let ins = args.take(k).push("--plain"@) + args.skip(k);
    lemma_literals();
    if n == k {
        assert(ins.take(k + 1) =~= args.take(k).push("--plain"@));
        lemma_scan_push(args.take(k), "--plain"@);
    } else {
        lemma_insert_plain(args, k, n - 1);
        assert(ins.take(n + 1) =~= ins.take(n).push(args[n - 1]));
        assert(args.take(n) =~= args.take(n - 1).push(args[n - 1]));
        lemma_scan_push(ins.take(n), args[n - 1]);
        lemma_scan_push(args.take(n - 1), args[n - 1]);
        match scan(args.take(n - 1)) {
            Ok(st) => lemma_step_plain(st, args[n - 1]),
            Err(_) => {},
        }
    }
}

/// `--plain` may stand at any position where a flag is read (that is, not
/// as the target of a `--host` flag): inserted there into an accepted
/// command line, it switches the output to JSON and changes nothing else.
/// Repeated insertions follow by applying the law again.
pub proof fn law_plain_anywhere(args: Seq<Seq<char>>, k: int)
    requires
        spec_parse_args(args) is Ok,
        0 <= k <= args.len(),
        !expects_host_at(args, k),
    ensures
        spec_parse_args(args.take(k).push("--plain"@) + args.skip(k)) == Ok::<ConfigModel, ArgsFault>(
            ConfigModel { output_mode: OutputMode::Plain, host: spec_parse_args(args)->Ok_0.host },
        ),
{
    if scan(args.take(k)) is Err {
        lemma_scan_error_persists(args, k, scan(args.take(k))->Err_0);
    }
    let ins = args.take(k).push("--plain"@) + args.skip(k);
    lemma_insert_plain(args, k, args.len() as int);
    assert(ins.take(args.len() + 1int) =~= ins);
    assert(args.take(args.len() as int) =~= args);
}


/// `m` copies of `--plain`.
pub open spec fn plains(m: nat) -> Seq<Seq<char>> {
    Seq::new(m, |_i: int| "--plain"@)
}

/// `args` with `counts[i]` copies of `--plain` inserted before argument
/// `i` (and `counts[args.len()]` after the last one).
pub open spec fn with_plains(args: Seq<Seq<char>>, counts: Seq<nat>) -> Seq<Seq<char>>
    decreases args.len(),
{
    if args.len() == 0 || counts.len() == 0 {
        plains(if counts.len() > 0 { counts[0] } else { 0 })
    } else {
        with_plains(args.drop_last(), counts.drop_last()) + seq![args.last()] + plains(counts.last())
    }
}

/// Total number of insertions.
pub open spec fn total_inserted(counts: Seq<nat>) -> nat
    decreases counts.len(),
{
    if counts.len() == 0 {
        0
    } else {
        total_inserted(counts.drop_last()) + counts.last()
    }
}

/// The scan result with the output switched to JSON where `plain` holds.
pub open spec fn with_plain_mode(r: Result<ParseState, ArgsFault>, plain: bool) -> Result<ParseState, ArgsFault> {
    match r {
        Ok(st) => Ok(if plain { ParseState { output_mode: OutputMode::Plain, ..st } } else { st }),
        Err(e) => Err(e),
    }
}

proof fn lemma_scan_plains(prefix: Seq<Seq<char>>, m: nat)
    requires
        m > 0 ==> !(scan(prefix) is Ok && scan(prefix)->Ok_0.awaiting_host),
    ensures
        scan(prefix + plains(m)) == with_plain_mode(scan(prefix), m > 0),
    decreases m,
{
    lemma_literals();
    if m == 0 {
        assert(prefix + plains(0) =~= prefix);
        match scan(prefix) {
            Ok(st) => {},
            Err(_) => {},
        }
    } else {
        lemma_scan_plains(prefix, (m - 1) as nat);
        assert(prefix + plains(m) =~= (prefix + plains((m - 1) as nat)).push("--plain"@));
        lemma_scan_push(prefix + plains((m - 1) as nat), "--plain"@);
    }
}

proof fn lemma_with_plains_scan(args: Seq<Seq<char>>, counts: Seq<nat>)
    requires
        counts.len() == args.len() + 1,
        forall|i: int| 0 <= i < counts.len() && #[trigger] counts[i] > 0 ==> !expects_host_at(args, i),
    ensures
        scan(with_plains(args, counts)) == with_plain_mode(scan(args), total_inserted(counts) > 0),
    decreases args.len(),
{
    if args.len() == 0 {
        assert(args.take(0) =~= args);
        assert(counts[0] > 0 ==> !expects_host_at(args, 0));
        lemma_scan_plains(Seq::empty(), counts[0]);
        assert(Seq::<Seq<char>>::empty() + plains(counts[0]) =~= plains(counts[0]));
        assert(counts.drop_last() =~= Seq::<nat>::empty());
    } else {
        let prev = args.drop_last();
        let x = args.last();
        let c = counts.drop_last();
        let m = counts.last();
        assert(prev.push(x) =~= args);
        lemma_push_positions(prev, x);
        assert forall|i: int| 0 <= i < c.len() && #[trigger] c[i] > 0 implies !expects_host_at(prev, i) by {
            assert(counts[i] == c[i]);
            assert(args.take(i) == prev.take(i));
        }
        lemma_with_plains_scan(prev, c);
        let front = with_plains(prev, c);
        let plain = total_inserted(c) > 0;
        lemma_scan_push(front, x);
        lemma_scan_push(prev, x);
        match scan(prev) {
            Ok(st) => lemma_step_plain(st, x),
            Err(_) => {},
        }
        assert(front + seq![x] =~= front.push(x));
        assert(scan(front.push(x)) == with_plain_mode(scan(args), plain));
        assert(args.take(args.len() as int) =~= args);
        assert(counts[counts.len() - 1] == m);
        lemma_scan_plains(front.push(x), m);
        assert(scan(front.push(x) + plains(m)) == with_plain_mode(scan(front.push(x)), m > 0));
    }
}

/// Position and repetition of `--plain` do not matter: inserting any number
/// of `--plain` flags into an accepted command line, each at a place where
/// a flag is read (not as the target of a `--host` flag), switches the
/// output to JSON (if at least one is inserted) and changes nothing else.
pub proof fn law_plains_anywhere(args: Seq<Seq<char>>, counts: Seq<nat>)
    requires
        spec_parse_args(args) is Ok,
        counts.len() == args.len() + 1,
        forall|i: int| 0 <= i < counts.len() && #[trigger] counts[i] > 0 ==> !expects_host_at(args, i),
    ensures
        spec_parse_args(with_plains(args, counts)) == Ok::<ConfigModel, ArgsFault>(ConfigModel {
            output_mode: if total_inserted(counts) > 0 {
                OutputMode::Plain
            } else {
                spec_parse_args(args)->Ok_0.output_mode
            },
            host: spec_parse_args(args)->Ok_0.host,
        }),
{
    lemma_with_plains_scan(args, counts);
}

} // verus!
