//! The options of the web server: read from `config.json`, then overridden by
//! the `AUTH` environment variable and by command-line arguments.

use vstd::prelude::*;

use crate::text::{clone_text, parse_u16, parse_unsigned, parse_usize, same_text};
use crate::DEFAULT_PORT;

verus! {

/// Options of the web server.
pub struct RunOptions {
    pub host: Option<String>,
    pub port: u16,
    pub archive: Option<usize>,
    pub authentication: Option<String>,
    pub shelly_api_url: Option<String>,
}

/// The port after `add_port`: the given value when it parses as a `u16`,
/// else the old port.
pub open spec fn port_after(port: u16, value: Option<String>) -> u16 {
    match value {
        Some(p) => match parse_unsigned(p@, u16::MAX as nat) {
            Some(n) => n as u16,
            None => port,
        },
        None => port,
    }
}

/// The archive size after `add_archive`: the given value when it parses as
/// a `usize`, else the old setting.
pub open spec fn archive_after(archive: Option<usize>, value: Option<String>) -> Option<usize> {
    match value {
        Some(a) => match parse_unsigned(a@, usize::MAX as nat) {
            Some(n) => Some(n as usize),
            None => archive,
        },
        None => archive,
    }
}

/// The value that follows a flag at the front of `args`, if any.
pub open spec fn flag_value(args: Seq<String>) -> Option<String> {
    if args.len() > 1 {
        Some(args[1])
    } else {
        None
    }
}

/// The arguments after a flag and its value.
pub open spec fn after_flag_value(args: Seq<String>) -> Seq<String> {
    if args.len() > 1 {
        args.skip(2)
    } else {
        Seq::empty()
    }
}

/// The options after the command-line arguments `args` (without the program
/// name) are applied from left to right: `--port`/`-p` and
/// `--archive`/`-a` set their option when the next argument parses, and
/// `--auth`, `--shelly-api-url` and `--host` set theirs to the next argument
/// (to nothing when there is none); every flag consumes the next argument,
/// and anything else is skipped.
pub open spec fn apply_arguments(o: RunOptions, args: Seq<String>) -> RunOptions
    decreases args.len(),
{
    if args.len() == 0 {
        o
    } else {
        let flag = args[0]@;
        let value = flag_value(args);
        let rest = after_flag_value(args);
        if flag == "--port"@ || flag == "-p"@ {
            apply_arguments(RunOptions { port: port_after(o.port, value), ..o }, rest)
        } else if flag == "--archive"@ || flag == "-a"@ {
            apply_arguments(RunOptions { archive: archive_after(o.archive, value), ..o }, rest)
        } else if flag == "--auth"@ {
            apply_arguments(RunOptions { authentication: value, ..o }, rest)
        } else if flag == "--shelly-api-url"@ {
            apply_arguments(RunOptions { shelly_api_url: value, ..o }, rest)
        } else if flag == "--host"@ {
            apply_arguments(RunOptions { host: value, ..o }, rest)
        } else {
            apply_arguments(o, args.drop_first())
        }
    }
}

/// The options that `get_run_options` settles on: those of the
/// configuration file (or the defaults), with the authentication from the
/// environment if set, then the command-line arguments after the program
/// name applied.
pub open spec fn resolved_options(
    config: Option<RunOptions>,
    auth_env: Option<String>,
    args: Seq<String>,
) -> RunOptions {
    let base = match config {
        Some(c) => c,
        None => default_options(),
    };
    let with_env = match auth_env {
        Some(auth) => RunOptions { authentication: Some(auth), ..base },
        None => base,
    };
    apply_arguments(with_env, if args.len() > 0 { args.drop_first() } else { args })
}

/// The options when there is no configuration file: port 8080, nothing else.
pub open spec fn default_options() -> RunOptions {
    RunOptions {
        host: None,
        port: DEFAULT_PORT,
        archive: None,
        authentication: None,
        shelly_api_url: None,
    }
}

impl Default for RunOptions {
    fn default() -> (r: Self)
        ensures
            r == default_options(),
    {
        RunOptions {
            port: DEFAULT_PORT,
            archive: None,
            authentication: None,
            shelly_api_url: None,
            host: None,
        }
    }
}

impl Clone for RunOptions {
    fn clone(&self) -> (r: Self)
        ensures
            r == *self,
    {
        RunOptions {
            host: clone_text(&self.host),
            port: self.port,
            archive: self.archive,
            authentication: clone_text(&self.authentication),
            shelly_api_url: clone_text(&self.shelly_api_url),
        }
    }
}

impl RunOptions {
    /// Sets the port to `port` when it is given and parses as a `u16`.
    pub fn add_port(&mut self, port: Option<String>)
        ensures
            *final(self) == (RunOptions { port: port_after(old(self).port, port), ..*old(self) }),
    {
        if let Some(p) = port {
            if let Some(value) = parse_u16(p.as_str()) {
                self.port = value;
            }
        }
    }

    /// Sets the archive size to `archive` when it is given and parses as a
    /// `usize`.
    pub fn add_archive(&mut self, archive: Option<String>)
        ensures
            *final(self) == (RunOptions {
                archive: archive_after(old(self).archive, archive),
                ..*old(self)
            }),
    {
        if let Some(a) = archive {
            if let Some(value) = parse_usize(a.as_str()) {
                self.archive = Some(value);
            }
        }
    }
}

/// Applies the command-line arguments `args` (without the program name) to
/// `options`.
pub fn apply_command_line(options: &mut RunOptions, args: &Vec<String>)
    ensures
        *final(options) == apply_arguments(*old(options), args@),
{
    let n = args.len();
    let mut i: usize = 0;
    assert(args@.skip(0) =~= args@);
    while i < n
        invariant
            i <= n,
            n == args@.len(),
            apply_arguments(*options, args@.skip(i as int)) == apply_arguments(
                *old(options),
                args@,
            ),
        decreases n - i,
    {
        let ghost rest = args@.skip(i as int);
        let ghost before = *options;
        let arg = &args[i];
        let value: Option<String> = if i + 1 < n {
            Some(args[i + 1].clone())
        } else {
            None
        };
        let next: usize = if i + 1 < n {
            i + 2
        } else {
            n
        };
        proof {
            assert(rest[0] == args@[i as int]);
            assert(value == flag_value(rest));
            if i + 1 < n {
                assert(after_flag_value(rest) =~= args@.skip(next as int));
            } else {
                assert(after_flag_value(rest) =~= args@.skip(next as int));
            }
            assert(rest.drop_first() =~= args@.skip(i + 1));
        }
        if same_text(arg.as_str(), "--port") || same_text(arg.as_str(), "-p") {
            options.add_port(value);
            i = next;
        } else if same_text(arg.as_str(), "--archive") || same_text(arg.as_str(), "-a") {
            options.add_archive(value);
            i = next;
        } else if same_text(arg.as_str(), "--auth") {
            options.authentication = value;
            i = next;
        } else if same_text(arg.as_str(), "--shelly-api-url") {
            options.shelly_api_url = value;
            i = next;
        } else if same_text(arg.as_str(), "--host") {
            options.host = value;
            i = next;
        } else {
            i = i + 1;
        }
    }
    assert(args@.skip(n as int) =~= Seq::<String>::empty());
}

/// Settles the options of the web server from the parsed configuration file
/// (if there is one), the `AUTH` environment variable (if set) and the
/// command-line arguments (with the program name first), later sources
/// overriding earlier ones.
pub fn get_run_options(
    config: Option<RunOptions>,
    auth_env: Option<String>,
    args: Vec<String>,
) -> (r: RunOptions)
    ensures
        r == resolved_options(config, auth_env, args@),
{
    let mut options: RunOptions = match config {
        Some(c) => c,
        None => RunOptions::default(),
    };
    if let Some(auth) = auth_env {
        options.authentication = Some(auth);
    }
    let mut rest: Vec<String> = Vec::new();
    let n = args.len();
    if n > 0 {
        let mut i: usize = 1;
        assert(args@.subrange(1, 1) =~= Seq::<String>::empty());
        while i < n
            invariant
                1 <= i <= n,
                n == args@.len(),
                rest@ =~= args@.subrange(1, i as int),
            decreases n - i,
        {
            rest.push(args[i].clone());
            i = i + 1;
        }
        assert(rest@ =~= args@.drop_first());
    } else {
        assert(rest@ =~= args@);
    }
    apply_command_line(&mut options, &rest);
    options
}

/// Whether `text` is one of the command-line flags.
pub open spec fn is_option_flag(text: Seq<char>) -> bool {
    text == "--port"@ || text == "-p"@ || text == "--archive"@ || text == "-a"@ || text == "--auth"@
        || text == "--shelly-api-url"@ || text == "--host"@
}

/// The flags are seven different texts.
proof fn lemma_flags_distinct()
    ensures
        "--port"@ != "-p"@,
        "--port"@ != "--archive"@,
        "--port"@ != "-a"@,
        "--port"@ != "--auth"@,
        "--port"@ != "--shelly-api-url"@,
        "--port"@ != "--host"@,
        "-p"@ != "--archive"@,
        "-p"@ != "-a"@,
        "-p"@ != "--auth"@,
        "-p"@ != "--shelly-api-url"@,
        "-p"@ != "--host"@,
        "--archive"@ != "-a"@,
        "--archive"@ != "--auth"@,
        "--archive"@ != "--shelly-api-url"@,
        "--archive"@ != "--host"@,
        "-a"@ != "--auth"@,
        "-a"@ != "--shelly-api-url"@,
        "-a"@ != "--host"@,
        "--auth"@ != "--shelly-api-url"@,
        "--auth"@ != "--host"@,
        "--shelly-api-url"@ != "--host"@,
{
    reveal_strlit("--port");
    reveal_strlit("-p");
    reveal_strlit("--archive");
    reveal_strlit("-a");
    reveal_strlit("--auth");
    reveal_strlit("--shelly-api-url");
    reveal_strlit("--host");
    assert("--archive"@.len() == 9);
    assert("--auth"@.len() == 6);
    assert("--shelly-api-url"@.len() == 16);
    assert("--port"@[2] != "--auth"@[2]);
    assert("--port"@[2] != "--host"@[2]);
    assert("--auth"@[2] != "--host"@[2]);
    assert("-p"@[1] != "-a"@[1]);
}

/// Arguments none of which is a flag leave the options as they are.
pub proof fn lemma_plain_arguments_change_nothing(o: RunOptions, args: Seq<String>)
    requires
        forall|i: int| 0 <= i < args.len() ==> !is_option_flag(#[trigger] args[i]@),
    ensures
        apply_arguments(o, args) == o,
    decreases args.len(),
{
    if args.len() > 0 {
        assert(!is_option_flag(args[0]@));
        let rest = args.drop_first();
        assert forall|i: int| 0 <= i < rest.len() implies !is_option_flag(#[trigger] rest[i]@) by {
            assert(rest[i] == args[i + 1]);
        }
        lemma_plain_arguments_change_nothing(o, rest);
    }
}

/// The `AUTH` environment variable overrides the configuration file, and
/// an `--auth` argument overrides both; the other options of the
/// configuration file stay.
pub proof fn lemma_later_sources_override(
    config: RunOptions,
    env_auth: String,
    program: String,
    flag: String,
    value: String,
)
    requires
        flag@ == "--auth"@,
    ensures
        resolved_options(Some(config), Some(env_auth), seq![program]) == (RunOptions {
            authentication: Some(env_auth),
            ..config
        }),
        resolved_options(Some(config), Some(env_auth), seq![program, flag, value]) == (RunOptions {
            authentication: Some(value),
            ..config
        }),
{
    lemma_flags_distinct();
    let args = seq![program, flag, value];
    assert(args.drop_first() =~= seq![flag, value]);
    assert(after_flag_value(seq![flag, value]) =~= Seq::<String>::empty());
    assert(seq![program].drop_first() =~= Seq::<String>::empty());
    let with_env = RunOptions { authentication: Some(env_auth), ..config };
    let with_arg = RunOptions { authentication: Some(value), ..with_env };
    assert(flag_value(seq![flag, value]) == Some(value));
    assert(apply_arguments(with_arg, Seq::<String>::empty()) == with_arg);
    assert(apply_arguments(with_env, seq![flag, value]) == apply_arguments(
        with_arg,
        Seq::<String>::empty(),
    ));
    assert(with_arg == (RunOptions { authentication: Some(value), ..config }));
}

/// When a flag is given twice, the later value wins.
pub proof fn lemma_last_flag_wins(
    o: RunOptions,
    first: String,
    first_value: String,
    second: String,
    second_value: String,
)
    requires
        first@ == "--host"@,
        second@ == "--host"@,
    ensures
        apply_arguments(o, seq![first, first_value, second, second_value]) == (RunOptions {
            host: Some(second_value),
            ..o
        }),
{
    lemma_flags_distinct();
    let args = seq![first, first_value, second, second_value];
    assert(after_flag_value(args) =~= seq![second, second_value]);
    assert(after_flag_value(seq![second, second_value]) =~= Seq::<String>::empty());
    let once = RunOptions { host: Some(first_value), ..o };
    let twice = RunOptions { host: Some(second_value), ..once };
    assert(flag_value(args) == Some(first_value));
    assert(flag_value(seq![second, second_value]) == Some(second_value));
    assert(apply_arguments(twice, Seq::<String>::empty()) == twice);
    assert(apply_arguments(once, seq![second, second_value]) == twice);
    assert(apply_arguments(o, args) == apply_arguments(once, seq![second, second_value]));
}

/// `--port` and `-p` followed by a value set the port to the value when it
/// parses as a `u16` and leave it otherwise; either way the arguments after
/// the value are applied next.
pub proof fn lemma_port_flags(o: RunOptions, flag: String, value: String, rest: Seq<String>)
    requires
        flag@ == "--port"@ || flag@ == "-p"@,
    ensures
        apply_arguments(o, seq![flag, value] + rest) == apply_arguments(
            RunOptions {
                port: match parse_unsigned(value@, 65535) {
                    Some(n) => n as u16,
                    None => o.port,
                },
                ..o
            },
            rest,
        ),
{
    lemma_flags_distinct();
    let args = seq![flag, value] + rest;
    assert(args[0] == flag && args[1] == value);
    assert(after_flag_value(args) =~= rest);
}

/// `--archive` and `-a` followed by a value set the archive size to the
/// value when it parses as a `usize` and leave it otherwise; either way the
/// arguments after the value are applied next.
pub proof fn lemma_archive_flags(o: RunOptions, flag: String, value: String, rest: Seq<String>)
    requires
        flag@ == "--archive"@ || flag@ == "-a"@,
    ensures
        apply_arguments(o, seq![flag, value] + rest) == apply_arguments(
            RunOptions {
                archive: match parse_unsigned(value@, usize::MAX as nat) {
                    Some(n) => Some(n as usize),
                    None => o.archive,
                },
                ..o
            },
            rest,
        ),
{
    lemma_flags_distinct();
    let args = seq![flag, value] + rest;
    assert(args[0] == flag && args[1] == value);
    assert(after_flag_value(args) =~= rest);
}

/// `--auth`, `--shelly-api-url` and `--host` followed by a value set their
/// option to that value; the arguments after the value are applied next.
pub proof fn lemma_text_flags(o: RunOptions, flag: String, value: String, rest: Seq<String>)
    ensures
        flag@ == "--auth"@ ==> apply_arguments(o, seq![flag, value] + rest) == apply_arguments(
            RunOptions { authentication: Some(value), ..o },
            rest,
        ),
        flag@ == "--shelly-api-url"@ ==> apply_arguments(o, seq![flag, value] + rest)
            == apply_arguments(RunOptions { shelly_api_url: Some(value), ..o }, rest),
        flag@ == "--host"@ ==> apply_arguments(o, seq![flag, value] + rest) == apply_arguments(
            RunOptions { host: Some(value), ..o },
            rest,
        ),
{
    lemma_flags_distinct();
    let args = seq![flag, value] + rest;
    assert(args[0] == flag && args[1] == value);
    assert(after_flag_value(args) =~= rest);
}

/// Started as `program --port v` (or `-p v`) with a value `v` that parses
/// as the `u16` `n`, the server listens on port `n`, whatever the
/// configuration file and the environment say.
pub proof fn lemma_port_argument_wins(
    config: Option<RunOptions>,
    auth_env: Option<String>,
    program: String,
    flag: String,
    value: String,
    n: nat,
)
    requires
        flag@ == "--port"@ || flag@ == "-p"@,
        parse_unsigned(value@, 65535) == Some(n),
    ensures
        resolved_options(config, auth_env, seq![program, flag, value]).port == n,
{
    let args = seq![program, flag, value];
    assert(args.drop_first() =~= seq![flag, value] + Seq::<String>::empty());
    let base = match config {
        Some(c) => c,
        None => default_options(),
    };
    let with_env = match auth_env {
        Some(auth) => RunOptions { authentication: Some(auth), ..base },
        None => base,
    };
    lemma_port_flags(with_env, flag, value, Seq::empty());
}

} // verus!
