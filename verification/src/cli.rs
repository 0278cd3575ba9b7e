//! The command line: reading the options of each command, and the decisions
//! that the commands make around the engine.
use vstd::prelude::*;

use crate::api::{parse_i64, parsed_i64};
use crate::domain::normalize;
use crate::engine::{added, check, event_records, BlockDecision, BlockerEngine};
use crate::error::{error_debug, BlockerError, BlockerErrorView};
use crate::event::{BlockAction, BlockEvent};
use crate::rule::{new_rule, opt_string_view, RuleView};
use crate::store::action_text;
use crate::text::{append_str, str_is, string_from_chars, unsigned_number};

verus! {

/// The commands whose options are read here.
#[derive(Debug, Clone, Copy, PartialEq, Eq, Structural)]
pub enum CommandName {
    Check,
    Events,
    Allow,
    Unallow,
    Allowlist,
    DnsServe,
    DnsProbe,
    ApiServe,
    DevRun,
}

/// The options that commands take.
#[derive(Debug, Clone, Copy, PartialEq, Eq, Structural)]
pub enum OptKind {
    Rules,
    Block,
    Allow,
    Db,
    Listen,
    Upstream,
    Ttl,
    Limit,
    Server,
    DnsListen,
    ApiListen,
}

/// How an option is written.
pub open spec fn opt_name(k: OptKind) -> Seq<char> {
    match k {
        OptKind::Rules => "--rules"@,
        OptKind::Block => "--block"@,
        OptKind::Allow => "--allow"@,
        OptKind::Db => "--db"@,
        OptKind::Listen => "--listen"@,
        OptKind::Upstream => "--upstream"@,
        OptKind::Ttl => "--ttl"@,
        OptKind::Limit => "--limit"@,
        OptKind::Server => "--server"@,
        OptKind::DnsListen => "--dns-listen"@,
        OptKind::ApiListen => "--api-listen"@,
    }
}

fn opt_name_str(k: OptKind) -> (s: &'static str)
    ensures
        s@ == opt_name(k),
{
    match k {
        OptKind::Rules => "--rules",
        OptKind::Block => "--block",
        OptKind::Allow => "--allow",
        OptKind::Db => "--db",
        OptKind::Listen => "--listen",
        OptKind::Upstream => "--upstream",
        OptKind::Ttl => "--ttl",
        OptKind::Limit => "--limit",
        OptKind::Server => "--server",
        OptKind::DnsListen => "--dns-listen",
        OptKind::ApiListen => "--api-listen",
    }
}

/// The options that a command accepts.
pub open spec fn accepts(c: CommandName, k: OptKind) -> bool {
    match c {
        CommandName::Check => k == OptKind::Rules || k == OptKind::Block || k == OptKind::Allow || k
            == OptKind::Db,
        CommandName::Events => k == OptKind::Db || k == OptKind::Limit,
        CommandName::Allow | CommandName::Unallow | CommandName::Allowlist => k == OptKind::Db,
        CommandName::DnsServe => k == OptKind::Rules || k == OptKind::Block || k == OptKind::Allow
            || k == OptKind::Db || k == OptKind::Listen || k == OptKind::Upstream || k
            == OptKind::Ttl,
        CommandName::DnsProbe => k == OptKind::Server,
        CommandName::ApiServe => k == OptKind::Db || k == OptKind::Listen,
        CommandName::DevRun => k == OptKind::Rules || k == OptKind::Block || k == OptKind::Allow
            || k == OptKind::Db || k == OptKind::DnsListen || k == OptKind::ApiListen || k
            == OptKind::Upstream || k == OptKind::Ttl,
    }
}

/// The option that an argument names, for a command.
pub open spec fn opt_kind(c: CommandName, a: Seq<char>) -> Option<OptKind> {
    if a == opt_name(OptKind::Rules) && accepts(c, OptKind::Rules) {
        Some(OptKind::Rules)
    } else if a == opt_name(OptKind::Block) && accepts(c, OptKind::Block) {
        Some(OptKind::Block)
    } else if a == opt_name(OptKind::Allow) && accepts(c, OptKind::Allow) {
        Some(OptKind::Allow)
    } else if a == opt_name(OptKind::Db) && accepts(c, OptKind::Db) {
        Some(OptKind::Db)
    } else if a == opt_name(OptKind::Listen) && accepts(c, OptKind::Listen) {
        Some(OptKind::Listen)
    } else if a == opt_name(OptKind::Upstream) && accepts(c, OptKind::Upstream) {
        Some(OptKind::Upstream)
    } else if a == opt_name(OptKind::Ttl) && accepts(c, OptKind::Ttl) {
        Some(OptKind::Ttl)
    } else if a == opt_name(OptKind::Limit) && accepts(c, OptKind::Limit) {
        Some(OptKind::Limit)
    } else if a == opt_name(OptKind::Server) && accepts(c, OptKind::Server) {
        Some(OptKind::Server)
    } else if a == opt_name(OptKind::DnsListen) && accepts(c, OptKind::DnsListen) {
        Some(OptKind::DnsListen)
    } else if a == opt_name(OptKind::ApiListen) && accepts(c, OptKind::ApiListen) {
        Some(OptKind::ApiListen)
    } else {
        None
    }
}

fn accepts_exec(c: CommandName, k: OptKind) -> (b: bool)
    ensures
        b == accepts(c, k),
{
    match c {
        CommandName::Check => k == OptKind::Rules || k == OptKind::Block || k == OptKind::Allow || k
            == OptKind::Db,
        CommandName::Events => k == OptKind::Db || k == OptKind::Limit,
        CommandName::Allow | CommandName::Unallow | CommandName::Allowlist => k == OptKind::Db,
        CommandName::DnsServe => k == OptKind::Rules || k == OptKind::Block || k == OptKind::Allow
            || k == OptKind::Db || k == OptKind::Listen || k == OptKind::Upstream || k
            == OptKind::Ttl,
        CommandName::DnsProbe => k == OptKind::Server,
        CommandName::ApiServe => k == OptKind::Db || k == OptKind::Listen,
        CommandName::DevRun => k == OptKind::Rules || k == OptKind::Block || k == OptKind::Allow
            || k == OptKind::Db || k == OptKind::DnsListen || k == OptKind::ApiListen || k
            == OptKind::Upstream || k == OptKind::Ttl,
    }
}

fn opt_kind_exec(c: CommandName, a: &str) -> (r: Option<OptKind>)
    ensures
        r == opt_kind(c, a@),
{
    if str_is(a, "--rules") && accepts_exec(c, OptKind::Rules) {
        Some(OptKind::Rules)
    } else if str_is(a, "--block") && accepts_exec(c, OptKind::Block) {
        Some(OptKind::Block)
    } else if str_is(a, "--allow") && accepts_exec(c, OptKind::Allow) {
        Some(OptKind::Allow)
    } else if str_is(a, "--db") && accepts_exec(c, OptKind::Db) {
        Some(OptKind::Db)
    } else if str_is(a, "--listen") && accepts_exec(c, OptKind::Listen) {
        Some(OptKind::Listen)
    } else if str_is(a, "--upstream") && accepts_exec(c, OptKind::Upstream) {
        Some(OptKind::Upstream)
    } else if str_is(a, "--ttl") && accepts_exec(c, OptKind::Ttl) {
        Some(OptKind::Ttl)
    } else if str_is(a, "--limit") && accepts_exec(c, OptKind::Limit) {
        Some(OptKind::Limit)
    } else if str_is(a, "--server") && accepts_exec(c, OptKind::Server) {
        Some(OptKind::Server)
    } else if str_is(a, "--dns-listen") && accepts_exec(c, OptKind::DnsListen) {
        Some(OptKind::DnsListen)
    } else if str_is(a, "--api-listen") && accepts_exec(c, OptKind::ApiListen) {
        Some(OptKind::ApiListen)
    } else {
        None
    }
}

/// An argument that asks for help: `--help` or `-h` (`help` or `-h` for
/// `api-serve`).
pub open spec fn is_help(c: CommandName, a: Seq<char>) -> bool {
    if c == CommandName::ApiServe {
        a == "help"@ || a == "-h"@
    } else {
        a == "--help"@ || a == "-h"@
    }
}

fn is_help_exec(c: CommandName, a: &str) -> (b: bool)
    ensures
        b == is_help(c, a@),
{
    if c == CommandName::ApiServe {
        str_is(a, "help") || str_is(a, "-h")
    } else {
        str_is(a, "--help") || str_is(a, "-h")
    }
}

/// The name of a command in its messages.
pub open spec fn command_label(c: CommandName) -> Seq<char> {
    match c {
        CommandName::Check => "check"@,
        CommandName::Events => "events"@,
        CommandName::Allow => "allow"@,
        CommandName::Unallow => "unallow"@,
        CommandName::Allowlist => "allowlist"@,
        CommandName::DnsServe => "dns-serve"@,
        CommandName::DnsProbe => "dns-probe"@,
        CommandName::ApiServe => "api-serve"@,
        CommandName::DevRun => "dev-run"@,
    }
}

fn command_label_str(c: CommandName) -> (s: &'static str)
    ensures
        s@ == command_label(c),
{
    match c {
        CommandName::Check => "check",
        CommandName::Events => "events",
        CommandName::Allow => "allow",
        CommandName::Unallow => "unallow",
        CommandName::Allowlist => "allowlist",
        CommandName::DnsServe => "dns-serve",
        CommandName::DnsProbe => "dns-probe",
        CommandName::ApiServe => "api-serve",
        CommandName::DevRun => "dev-run",
    }
}

/// The message for an unknown option (the `allowlist` command spells
/// "Unkown").
pub open spec fn unknown_message(c: CommandName, a: Seq<char>) -> Seq<char> {
    if c == CommandName::Allowlist {
        "Unkown allowlist option: "@ + a
    } else {
        "Unknown "@ + command_label(c) + " option: "@ + a
    }
}

/// What `str::parse::<u32>` gives for a text: the number, when the text
/// is one and it fits.
pub open spec fn parsed_u32(s: Seq<char>) -> Option<u32> {
    match unsigned_number(s) {
        Some(n) => if n <= u32::MAX {
            Some(n as u32)
        } else {
            None
        },
        None => None,
    }
}

/// `str::parse::<u32>`, its error dropped. As `u32::from_str_radix`
/// documents for radix 10, the text is read as an optional `+` followed by
/// ASCII digits only, and a value that does not fit is an error.
#[verifier::external_body]
fn parse_u32(s: &str) -> (r: Option<u32>)
    ensures
        r == parsed_u32(s@),
{
    s.parse::<u32>().ok()
}

/// The options read so far.
#[derive(Debug, Clone, PartialEq, Eq)]
pub struct CliOptions {
    pub rule_files: Vec<String>,
    pub block_rules: Vec<String>,
    pub allow_rules: Vec<String>,
    pub db: Option<String>,
    pub listen: Option<String>,
    pub upstream: Option<String>,
    pub ttl: Option<u32>,
    pub limit: Option<i64>,
    pub server: Option<String>,
    pub dns_listen: Option<String>,
    pub api_listen: Option<String>,
}

pub struct OptionsView {
    pub rule_files: Seq<Seq<char>>,
    pub block_rules: Seq<Seq<char>>,
    pub allow_rules: Seq<Seq<char>>,
    pub db: Option<Seq<char>>,
    pub listen: Option<Seq<char>>,
    pub upstream: Option<Seq<char>>,
    pub ttl: Option<u32>,
    pub limit: Option<i64>,
    pub server: Option<Seq<char>>,
    pub dns_listen: Option<Seq<char>>,
    pub api_listen: Option<Seq<char>>,
}

/// A vector of strings, by their views.
pub open spec fn strings_view(v: Seq<String>) -> Seq<Seq<char>> {
    v.map_values(|s: String| s@)
}

impl View for CliOptions {
    type V = OptionsView;

    open spec fn view(&self) -> OptionsView {
        OptionsView {
            rule_files: strings_view(self.rule_files@),
            block_rules: strings_view(self.block_rules@),
            allow_rules: strings_view(self.allow_rules@),
            db: opt_string_view(self.db),
            listen: opt_string_view(self.listen),
            upstream: opt_string_view(self.upstream),
            ttl: self.ttl,
            limit: self.limit,
            server: opt_string_view(self.server),
            dns_listen: opt_string_view(self.dns_listen),
            api_listen: opt_string_view(self.api_listen),
        }
    }
}

pub open spec fn no_options() -> OptionsView {
    OptionsView {
        rule_files: Seq::empty(),
        block_rules: Seq::empty(),
        allow_rules: Seq::empty(),
        db: None,
        listen: None,
        upstream: None,
        ttl: None,
        limit: None,
        server: None,
        dns_listen: None,
        api_listen: None,
    }
}

/// The options after an option with its value: lists grow, single values are
/// replaced, numbers must parse.
pub open spec fn apply_option(k: OptKind, acc: OptionsView, v: Seq<char>) -> Result<
    OptionsView,
    Seq<char>,
> {
    match k {
        OptKind::Rules => Ok(OptionsView { rule_files: acc.rule_files.push(v), ..acc }),
        OptKind::Block => Ok(OptionsView { block_rules: acc.block_rules.push(v), ..acc }),
        OptKind::Allow => Ok(OptionsView { allow_rules: acc.allow_rules.push(v), ..acc }),
        OptKind::Db => Ok(OptionsView { db: Some(v), ..acc }),
        OptKind::Listen => Ok(OptionsView { listen: Some(v), ..acc }),
        OptKind::Upstream => Ok(OptionsView { upstream: Some(v), ..acc }),
        OptKind::Ttl => match parsed_u32(v) {
            Some(n) => Ok(OptionsView { ttl: Some(n), ..acc }),
            None => Err("Invalid --ttl value: "@ + v),
        },
        OptKind::Limit => match parsed_i64(v) {
            Some(n) => Ok(OptionsView { limit: Some(n), ..acc }),
            None => Err("Invalid --limit value: "@ + v),
        },
        OptKind::Server => Ok(OptionsView { server: Some(v), ..acc }),
        OptKind::DnsListen => Ok(OptionsView { dns_listen: Some(v), ..acc }),
        OptKind::ApiListen => Ok(OptionsView { api_listen: Some(v), ..acc }),
    }
}

/// How reading options ends.
pub enum OptionsOutcome {
    Done(OptionsView),
    Help,
    Fail(Seq<char>),
}

/// Reads the options of a command from `args[i..]`.
pub open spec fn parse_options(
    c: CommandName,
    args: Seq<Seq<char>>,
    i: int,
    acc: OptionsView,
) -> OptionsOutcome
    decreases args.len() - i,
{
    if i < 0 || i >= args.len() {
        OptionsOutcome::Done(acc)
    } else {
        match opt_kind(c, args[i]) {
            Some(k) => if i + 1 >= args.len() {
                OptionsOutcome::Fail("Missing value after "@ + opt_name(k))
            } else {
                match apply_option(k, acc, args[i + 1]) {
                    Ok(next) => parse_options(c, args, i + 2, next),
                    Err(m) => OptionsOutcome::Fail(m),
                }
            },
            None => if is_help(c, args[i]) {
                OptionsOutcome::Help
            } else {
                OptionsOutcome::Fail(unknown_message(c, args[i]))
            },
        }
    }
}

/// A command line that asks for a command to run, or for help.
#[derive(Debug, Clone, PartialEq, Eq)]
pub enum CliParse<T> {
    Run(T),
    Help,
}

/// The value after an option: `args[option_index + 1]`, or the message
/// `Missing value after <option_name>`.
pub fn next_value<'a>(args: &'a [String], option_index: usize, option_name: &str) -> (r: Result<
    &'a str,
    String,
>)
    ensures
        option_index + 1 < args@.len() ==> (r matches Ok(v) && v@ == args@[option_index + 1]@),
        option_index + 1 >= args@.len() ==> (r matches Err(m) && m@ == "Missing value after "@
            + option_name@),
{
    if option_index < args.len() && option_index + 1 < args.len() {
        Ok(args[option_index + 1].as_str())
    } else {
        let mut out: Vec<char> = Vec::new();
        append_str(&mut out, "Missing value after ");
        append_str(&mut out, option_name);
        Err(string_from_chars(out.as_slice()))
    }
}

fn apply_option_exec(k: OptKind, acc: &mut CliOptions, v: &str) -> (r: Result<(), String>)
    ensures
        match apply_option(k, old(acc)@, v@) {
            Ok(next) => r is Ok && final(acc)@ == next,
            Err(m) => r matches Err(e) && e@ == m,
        },
{
    let ghost before = acc@;
    match k {
        OptKind::Rules => {
            acc.rule_files.push(v.to_owned());
            assert(strings_view(acc.rule_files@) =~= before.rule_files.push(v@));
        },
        OptKind::Block => {
            acc.block_rules.push(v.to_owned());
            assert(strings_view(acc.block_rules@) =~= before.block_rules.push(v@));
        },
        OptKind::Allow => {
            acc.allow_rules.push(v.to_owned());
            assert(strings_view(acc.allow_rules@) =~= before.allow_rules.push(v@));
        },
        OptKind::Db => {
            acc.db = Some(v.to_owned());
        },
        OptKind::Listen => {
            acc.listen = Some(v.to_owned());
        },
        OptKind::Upstream => {
            acc.upstream = Some(v.to_owned());
        },
        OptKind::Ttl => {
            match parse_u32(v) {
                Some(n) => {
                    acc.ttl = Some(n);
                },
                None => {
                    let mut out: Vec<char> = Vec::new();
                    append_str(&mut out, "Invalid --ttl value: ");
                    append_str(&mut out, v);
                    return Err(string_from_chars(out.as_slice()));
                },
            }
        },
        OptKind::Limit => {
            match parse_i64(v) {
                Some(n) => {
                    acc.limit = Some(n);
                },
                None => {
                    let mut out: Vec<char> = Vec::new();
                    append_str(&mut out, "Invalid --limit value: ");
                    append_str(&mut out, v);
                    return Err(string_from_chars(out.as_slice()));
                },
            }
        },
        OptKind::Server => {
            acc.server = Some(v.to_owned());
        },
        OptKind::DnsListen => {
            acc.dns_listen = Some(v.to_owned());
        },
        OptKind::ApiListen => {
            acc.api_listen = Some(v.to_owned());
        },
    }
    Ok(())
}

/// The message for an unknown option.
fn unknown_option(c: CommandName, a: &str) -> (s: String)
    ensures
        s@ == unknown_message(c, a@),
{
    let mut out: Vec<char> = Vec::new();
    if c == CommandName::Allowlist {
        append_str(&mut out, "Unkown allowlist option: ");
    } else {
        append_str(&mut out, "Unknown ");
        append_str(&mut out, command_label_str(c));
        append_str(&mut out, " option: ");
    }
    append_str(&mut out, a);
    string_from_chars(out.as_slice())
}

/// The arguments, by their views.
pub open spec fn args_view(args: &[String]) -> Seq<Seq<char>> {
    args@.map_values(|s: String| s@)
}

/// Reads the options of a command from `args[start..]`.
pub fn parse_options_exec(c: CommandName, args: &[String], start: usize) -> (r: Result<
    CliParse<CliOptions>,
    String,
>)
    ensures
        match parse_options(c, args_view(args), start as int, no_options()) {
            OptionsOutcome::Done(o) => r matches Ok(CliParse::Run(x)) && x@ == o,
            OptionsOutcome::Help => r matches Ok(CliParse::Help),
            OptionsOutcome::Fail(m) => r matches Err(e) && e@ == m,
        },
{
    let ghost av = args_view(args);
    let mut acc = CliOptions {
        rule_files: Vec::new(),
        block_rules: Vec::new(),
        allow_rules: Vec::new(),
        db: None,
        listen: None,
        upstream: None,
        ttl: None,
        limit: None,
        server: None,
        dns_listen: None,
        api_listen: None,
    };
    assert(strings_view(acc.rule_files@) =~= Seq::<Seq<char>>::empty());
    assert(strings_view(acc.block_rules@) =~= Seq::<Seq<char>>::empty());
    assert(strings_view(acc.allow_rules@) =~= Seq::<Seq<char>>::empty());
    assert(acc@ == no_options());
    let mut index = start;
    while index < args.len()
        invariant
            av == args_view(args),
            start <= index,
            parse_options(c, av, start as int, no_options()) == parse_options(
                c,
                av,
                index as int,
                acc@,
            ),
        decreases args.len() - index,
    {
        let a = args[index].as_str();
        assert(a@ == av[index as int]);
        match opt_kind_exec(c, a) {
            Some(k) => {
                let value = match next_value(args, index, opt_name_str(k)) {
                    Ok(v) => v,
                    Err(m) => return Err(m),
                };
                match apply_option_exec(k, &mut acc, value) {
                    Ok(()) => {},
                    Err(m) => return Err(m),
                }
                index = index + 2;
            },
            None => {
                if is_help_exec(c, a) {
                    return Ok(CliParse::Help);
                }
                return Err(unknown_option(c, a));
            },
        }
    }
    Ok(CliParse::Run(acc))
}

/// A value, or the default when absent.
pub open spec fn or_default(o: Option<Seq<char>>, d: Seq<char>) -> Seq<char> {
    match o {
        Some(v) => v,
        None => d,
    }
}

fn take_or(o: Option<String>, default: &str) -> (r: String)
    ensures
        r@ == or_default(opt_string_view(o), default@),
{
    match o {
        Some(v) => v,
        None => default.to_owned(),
    }
}

fn missing_domain(c: CommandName) -> (s: String)
    ensures
        s@ == "Missing domain for "@ + command_label(c) + " command"@,
{
    let mut out: Vec<char> = Vec::new();
    append_str(&mut out, "Missing domain for ");
    append_str(&mut out, command_label_str(c));
    append_str(&mut out, " command");
    string_from_chars(out.as_slice())
}

/// `check` and `dns-check`: a domain, rule files, manual rules, a database.
#[derive(Debug, Clone, PartialEq, Eq)]
pub struct CheckCommand {
    pub domain: String,
    pub rule_files: Vec<String>,
    pub block_rules: Vec<String>,
    pub allow_rules: Vec<String>,
    pub db_path: Option<String>,
}

/// `events`: a database and how many events to show.
#[derive(Debug, Clone, PartialEq, Eq)]
pub struct EventsCommand {
    pub db_path: String,
    pub limit: i64,
}

/// `allow`: a domain and a database.
#[derive(Debug, Clone, PartialEq, Eq)]
pub struct AllowCommand {
    pub domain: String,
    pub db_path: String,
}

/// `unallow`: a domain and a database.
#[derive(Debug, Clone, PartialEq, Eq)]
pub struct UnallowCommand {
    pub domain: String,
    pub db_path: String,
}

/// `allowlist`: a database.
#[derive(Debug, Clone, PartialEq, Eq)]
pub struct AllowlistCommand {
    pub db_path: String,
}

/// `dns-serve`: rules, a database, addresses and the blocked answers' TTL.
#[derive(Debug, Clone, PartialEq, Eq)]
pub struct DnsServeCommand {
    pub rule_files: Vec<String>,
    pub block_rules: Vec<String>,
    pub allow_rules: Vec<String>,
    pub db_path: Option<String>,
    pub listen_addr: String,
    pub upstream_addr: String,
    pub blocked_ttl_seconds: u32,
}

/// `dns-probe`: a domain and the server to ask.
#[derive(Debug, Clone, PartialEq, Eq)]
pub struct DnsProbeCommand {
    pub domain: String,
    pub server_addr: String,
}

/// `api-serve`: a database and an address.
#[derive(Debug, Clone, PartialEq, Eq)]
pub struct ApiServeCommand {
    pub db_path: String,
    pub listen_addr: String,
}

/// `dev-run`: rules, a database, the two servers' addresses, the upstream and
/// the TTL.
#[derive(Debug, Clone, PartialEq, Eq)]
pub struct DevRunCommand {
    pub rule_files: Vec<String>,
    pub block_rules: Vec<String>,
    pub allow_rules: Vec<String>,
    pub db_path: String,
    pub dns_listen_addr: String,
    pub api_listen_addr: String,
    pub upstream_addr: String,
    pub blocked_ttl_seconds: u32,
}

/// What a parse gives, in terms of the options read: a command built from
/// them by `built`, help, or a message.
pub open spec fn parse_result<T>(
    outcome: OptionsOutcome,
    r: Result<CliParse<T>, String>,
    built: spec_fn(T, OptionsView) -> bool,
) -> bool {
    match outcome {
        OptionsOutcome::Done(o) => r matches Ok(CliParse::Run(x)) && built(x, o),
        OptionsOutcome::Help => r matches Ok(CliParse::Help),
        OptionsOutcome::Fail(m) => r matches Err(e) && e@ == m,
    }
}

pub open spec fn check_built(x: CheckCommand, domain: Seq<char>, o: OptionsView) -> bool {
    &&& x.domain@ == domain
    &&& strings_view(x.rule_files@) == o.rule_files
    &&& strings_view(x.block_rules@) == o.block_rules
    &&& strings_view(x.allow_rules@) == o.allow_rules
    &&& opt_string_view(x.db_path) == o.db
}

/// Reads `check <domain> [options]`.
pub fn parse_check_command(args: &[String]) -> (r: Result<CliParse<CheckCommand>, String>)
    ensures
        args@.len() == 0 ==> (r matches Err(e) && e@ == "Missing domain for check command"@),
        args@.len() > 0 ==> parse_result(
            parse_options(CommandName::Check, args_view(args), 1, no_options()),
            r,
            |x: CheckCommand, o: OptionsView| check_built(x, args@[0]@, o),
        ),
{
    if args.len() == 0 {
        return Err("Missing domain for check command".to_owned());
    }
    let domain = args[0].clone();
    match parse_options_exec(CommandName::Check, args, 1) {
        Err(e) => Err(e),
        Ok(CliParse::Help) => Ok(CliParse::Help),
        Ok(CliParse::Run(o)) => Ok(
            CliParse::Run(
                CheckCommand {
                    domain,
                    rule_files: o.rule_files,
                    block_rules: o.block_rules,
                    allow_rules: o.allow_rules,
                    db_path: o.db,
                },
            ),
        ),
    }
}

/// Reads `events [options]`: database `blocker.db` and limit 50 by default.
pub fn parse_events_command(args: &[String]) -> (r: Result<CliParse<EventsCommand>, String>)
    ensures
        parse_result(
            parse_options(CommandName::Events, args_view(args), 0, no_options()),
            r,
            |x: EventsCommand, o: OptionsView|
                x.db_path@ == or_default(o.db, "blocker.db"@) && x.limit == match o.limit {
                    Some(n) => n,
                    None => 50,
                },
        ),
{
    match parse_options_exec(CommandName::Events, args, 0) {
        Err(e) => Err(e),
        Ok(CliParse::Help) => Ok(CliParse::Help),
        Ok(CliParse::Run(o)) => {
            let limit = match o.limit {
                Some(n) => n,
                None => 50,
            };
            Ok(CliParse::Run(EventsCommand { db_path: take_or(o.db, "blocker.db"), limit }))
        },
    }
}

/// Reads `<command> <domain> [--db <file>]` for `allow` and `unallow`.
pub fn parse_domain_db_command(args: &[String], command: CommandName) -> (r: Result<
    CliParse<(String, String)>,
    String,
>)
    requires
        command == CommandName::Allow || command == CommandName::Unallow,
    ensures
        args@.len() == 0 ==> (r matches Err(e) && e@ == "Missing domain for "@ + command_label(
            command,
        ) + " command"@),
        args@.len() > 0 ==> parse_result(
            parse_options(command, args_view(args), 1, no_options()),
            r,
            |x: (String, String), o: OptionsView|
                x.0@ == args@[0]@ && x.1@ == or_default(o.db, "blocker.db"@),
        ),
{
    if args.len() == 0 {
        return Err(missing_domain(command));
    }
    let domain = args[0].clone();
    match parse_options_exec(command, args, 1) {
        Err(e) => Err(e),
        Ok(CliParse::Help) => Ok(CliParse::Help),
        Ok(CliParse::Run(o)) => Ok(CliParse::Run((domain, take_or(o.db, "blocker.db")))),
    }
}

/// Reads `allow <domain> [--db <file>]`.
pub fn parse_allow_command(args: &[String]) -> (r: Result<CliParse<AllowCommand>, String>)
    ensures
        args@.len() == 0 ==> (r matches Err(e) && e@ == "Missing domain for allow command"@),
        args@.len() > 0 ==> parse_result(
            parse_options(CommandName::Allow, args_view(args), 1, no_options()),
            r,
            |x: AllowCommand, o: OptionsView|
                x.domain@ == args@[0]@ && x.db_path@ == or_default(o.db, "blocker.db"@),
        ),
{
    proof {
        reveal_strlit("Missing domain for ");
        reveal_strlit("allow");
        reveal_strlit(" command");
        reveal_strlit("Missing domain for allow command");
        assert("Missing domain for "@ + "allow"@ + " command"@ =~= "Missing domain for allow command"@);
    }
    match parse_domain_db_command(args, CommandName::Allow) {
        Err(e) => Err(e),
        Ok(CliParse::Help) => Ok(CliParse::Help),
        Ok(CliParse::Run((domain, db_path))) => Ok(CliParse::Run(AllowCommand { domain, db_path })),
    }
}

/// Reads `unallow <domain> [--db <file>]`.
pub fn parse_unallow_command(args: &[String]) -> (r: Result<CliParse<UnallowCommand>, String>)
    ensures
        args@.len() == 0 ==> (r matches Err(e) && e@ == "Missing domain for unallow command"@),
        args@.len() > 0 ==> parse_result(
            parse_options(CommandName::Unallow, args_view(args), 1, no_options()),
            r,
            |x: UnallowCommand, o: OptionsView|
                x.domain@ == args@[0]@ && x.db_path@ == or_default(o.db, "blocker.db"@),
        ),
{
    proof {
        reveal_strlit("Missing domain for ");
        reveal_strlit("unallow");
        reveal_strlit(" command");
        reveal_strlit("Missing domain for unallow command");
        assert("Missing domain for "@ + "unallow"@ + " command"@ =~= "Missing domain for unallow command"@);
    }
    match parse_domain_db_command(args, CommandName::Unallow) {
        Err(e) => Err(e),
        Ok(CliParse::Help) => Ok(CliParse::Help),
        Ok(CliParse::Run((domain, db_path))) => Ok(CliParse::Run(UnallowCommand { domain, db_path })),
    }
}

/// Reads `allowlist [--db <file>]`.
pub fn parse_allowlist_command(args: &[String]) -> (r: Result<CliParse<AllowlistCommand>, String>)
    ensures
        parse_result(
            parse_options(CommandName::Allowlist, args_view(args), 0, no_options()),
            r,
            |x: AllowlistCommand, o: OptionsView| x.db_path@ == or_default(o.db, "blocker.db"@),
        ),
{
    match parse_options_exec(CommandName::Allowlist, args, 0) {
        Err(e) => Err(e),
        Ok(CliParse::Help) => Ok(CliParse::Help),
        Ok(CliParse::Run(o)) => Ok(CliParse::Run(AllowlistCommand { db_path: take_or(o.db, "blocker.db") })),
    }
}

pub open spec fn dns_serve_built(x: DnsServeCommand, o: OptionsView) -> bool {
    &&& strings_view(x.rule_files@) == o.rule_files
    &&& strings_view(x.block_rules@) == o.block_rules
    &&& strings_view(x.allow_rules@) == o.allow_rules
    &&& opt_string_view(x.db_path) == o.db
    &&& x.listen_addr@ == or_default(o.listen, "127.0.0.1:5353"@)
    &&& x.upstream_addr@ == or_default(o.upstream, "1.1.1.1:53"@)
    &&& x.blocked_ttl_seconds == match o.ttl {
        Some(t) => t,
        None => 60,
    }
}

/// Reads `dns-serve [options]`: listen on 127.0.0.1:5353, forward to
/// 1.1.1.1:53, TTL 60 by default.
pub fn parse_dns_serve_command(args: &[String]) -> (r: Result<CliParse<DnsServeCommand>, String>)
    ensures
        parse_result(
            parse_options(CommandName::DnsServe, args_view(args), 0, no_options()),
            r,
            |x: DnsServeCommand, o: OptionsView| dns_serve_built(x, o),
        ),
{
    match parse_options_exec(CommandName::DnsServe, args, 0) {
        Err(e) => Err(e),
        Ok(CliParse::Help) => Ok(CliParse::Help),
        Ok(CliParse::Run(o)) => {
            let ttl = match o.ttl {
                Some(t) => t,
                None => 60,
            };
            Ok(
                CliParse::Run(
                    DnsServeCommand {
                        rule_files: o.rule_files,
                        block_rules: o.block_rules,
                        allow_rules: o.allow_rules,
                        db_path: o.db,
                        listen_addr: take_or(o.listen, "127.0.0.1:5353"),
                        upstream_addr: take_or(o.upstream, "1.1.1.1:53"),
                        blocked_ttl_seconds: ttl,
                    },
                ),
            )
        },
    }
}

/// Reads `dns-probe <domain> [--server <addr>]`: server 127.0.0.1:5300 by
/// default.
pub fn parse_dns_probe_command(args: &[String]) -> (r: Result<CliParse<DnsProbeCommand>, String>)
    ensures
        args@.len() == 0 ==> (r matches Err(e) && e@ == "Missing domain for dns-probe command"@),
        args@.len() > 0 ==> parse_result(
            parse_options(CommandName::DnsProbe, args_view(args), 1, no_options()),
            r,
            |x: DnsProbeCommand, o: OptionsView|
                x.domain@ == args@[0]@ && x.server_addr@ == or_default(o.server, "127.0.0.1:5300"@),
        ),
{
    if args.len() == 0 {
        return Err("Missing domain for dns-probe command".to_owned());
    }
    let domain = args[0].clone();
    match parse_options_exec(CommandName::DnsProbe, args, 1) {
        Err(e) => Err(e),
        Ok(CliParse::Help) => Ok(CliParse::Help),
        Ok(CliParse::Run(o)) => Ok(
            CliParse::Run(DnsProbeCommand { domain, server_addr: take_or(o.server, "127.0.0.1:5300") }),
        ),
    }
}

/// Reads `api-serve [options]`: database `blocker.db`, address
/// 127.0.0.1:4780 by default; `--listen <addr:port>` sets the address.
pub fn parse_api_serve_command(args: &[String]) -> (r: Result<CliParse<ApiServeCommand>, String>)
    ensures
        parse_result(
            parse_options(CommandName::ApiServe, args_view(args), 0, no_options()),
            r,
            |x: ApiServeCommand, o: OptionsView|
                x.db_path@ == or_default(o.db, "blocker.db"@) && x.listen_addr@ == or_default(
                    o.listen,
                    "127.0.0.1:4780"@,
                ),
        ),
{
    match parse_options_exec(CommandName::ApiServe, args, 0) {
        Err(e) => Err(e),
        Ok(CliParse::Help) => Ok(CliParse::Help),
        Ok(CliParse::Run(o)) => Ok(
            CliParse::Run(
                ApiServeCommand {
                    db_path: take_or(o.db, "blocker.db"),
                    listen_addr: take_or(o.listen, "127.0.0.1:4780"),
                },
            ),
        ),
    }
}

pub open spec fn dev_run_built(x: DevRunCommand, o: OptionsView) -> bool {
    &&& strings_view(x.rule_files@) == o.rule_files
    &&& strings_view(x.block_rules@) == o.block_rules
    &&& strings_view(x.allow_rules@) == o.allow_rules
    &&& x.db_path@ == or_default(o.db, "blocker.db"@)
    &&& x.dns_listen_addr@ == or_default(o.dns_listen, "0.0.0.0:5300"@)
    &&& x.api_listen_addr@ == or_default(o.api_listen, "127.0.0.1:4780"@)
    &&& x.upstream_addr@ == or_default(o.upstream, "1.1.1.1:53"@)
    &&& x.blocked_ttl_seconds == match o.ttl {
        Some(t) => t,
        None => 60,
    }
}

/// Reads `dev-run [options]`.
pub fn parse_dev_run_command(args: &[String]) -> (r: Result<CliParse<DevRunCommand>, String>)
    ensures
        parse_result(
            parse_options(CommandName::DevRun, args_view(args), 0, no_options()),
            r,
            |x: DevRunCommand, o: OptionsView| dev_run_built(x, o),
        ),
{
    match parse_options_exec(CommandName::DevRun, args, 0) {
        Err(e) => Err(e),
        Ok(CliParse::Help) => Ok(CliParse::Help),
        Ok(CliParse::Run(o)) => {
            let ttl = match o.ttl {
                Some(t) => t,
                None => 60,
            };
            Ok(
                CliParse::Run(
                    DevRunCommand {
                        rule_files: o.rule_files,
                        block_rules: o.block_rules,
                        allow_rules: o.allow_rules,
                        db_path: take_or(o.db, "blocker.db"),
                        dns_listen_addr: take_or(o.dns_listen, "0.0.0.0:5300"),
                        api_listen_addr: take_or(o.api_listen, "127.0.0.1:4780"),
                        upstream_addr: take_or(o.upstream, "1.1.1.1:53"),
                        blocked_ttl_seconds: ttl,
                    },
                ),
            )
        },
    }
}

// ---------------------------------------------------------------------------
// Decisions of the commands
// ---------------------------------------------------------------------------

/// How the command line names an action.
pub fn format_action(action: &BlockAction) -> (s: &'static str)
    ensures
        s@ == action_text(*action),
{
    match action {
        BlockAction::Blocked => "blocked",
        BlockAction::AllowedByUserRule => "allowed_by_user_rule",
        BlockAction::AllowedByDefault => "allowed_by_default",
    }
}

/// A list after adding a rule for each of `domains` in order, with the given
/// source and category; the first domain that makes no rule stops it with its
/// error.
pub open spec fn add_domains(
    rules: Seq<RuleView>,
    domains: Seq<Seq<char>>,
    source: Seq<char>,
    category: Seq<char>,
) -> Result<Seq<RuleView>, BlockerErrorView>
    decreases domains.len(),
{
    if domains.len() == 0 {
        Ok(rules)
    } else {
        match add_domains(rules, domains.drop_last(), source, category) {
            Ok(r) => match new_rule(domains.last(), Some(source), Some(category)) {
                Ok(rv) => Ok(added(r, rv)),
                Err(e) => Err(e),
            },
            Err(e) => Err(e),
        }
    }
}

/// The list that adding rules for `domains` in order leaves, also when a
/// domain makes no rule: the domains before the first such one are added,
/// and the rest are not.
pub open spec fn add_domains_upto(
    rules: Seq<RuleView>,
    domains: Seq<Seq<char>>,
    source: Seq<char>,
    category: Seq<char>,
) -> Seq<RuleView>
    decreases domains.len(),
{
    if domains.len() == 0 {
        rules
    } else {
        match add_domains(rules, domains.drop_last(), source, category) {
            Ok(r) => match new_rule(domains.last(), Some(source), Some(category)) {
                Ok(rv) => added(r, rv),
                Err(_) => r,
            },
            Err(_) => add_domains_upto(rules, domains.drop_last(), source, category),
        }
    }
}

/// Once a prefix of the domains fails, later domains add nothing.
proof fn lemma_add_domains_upto_stops(
    rules: Seq<RuleView>,
    domains: Seq<Seq<char>>,
    k: int,
    source: Seq<char>,
    category: Seq<char>,
)
    requires
        0 <= k <= domains.len(),
        add_domains(rules, domains.take(k), source, category) is Err,
    ensures
        add_domains_upto(rules, domains, source, category) == add_domains_upto(
            rules,
            domains.take(k),
            source,
            category,
        ),
    decreases domains.len() - k,
{
    if k < domains.len() {
        assert(domains.take(k + 1).drop_last() =~= domains.take(k));
        lemma_add_domains_upto_stops(rules, domains, k + 1, source, category);
    } else {
        assert(domains.take(k) =~= domains);
    }
}

/// Once a prefix of the domains fails, adding all of them fails the same way.
proof fn lemma_add_domains_fails(
    rules: Seq<RuleView>,
    domains: Seq<Seq<char>>,
    k: int,
    source: Seq<char>,
    category: Seq<char>,
)
    requires
        0 <= k <= domains.len(),
        add_domains(rules, domains.take(k), source, category) is Err,
    ensures
        add_domains(rules, domains, source, category) == add_domains(
            rules,
            domains.take(k),
            source,
            category,
        ),
    decreases domains.len() - k,
{
    if k < domains.len() {
        assert(domains.take(k + 1).drop_last() =~= domains.take(k));
        lemma_add_domains_fails(rules, domains, k + 1, source, category);
    } else {
        assert(domains.take(k) =~= domains);
    }
}

/// Adds a rule for each domain to the blocklist (`to_block`) or to the
/// allowlist.
fn add_domain_rules(
    engine: &mut BlockerEngine,
    domains: &[String],
    to_block: bool,
    source: &str,
    category: &str,
) -> (r: Result<(), BlockerError>)
    ensures
        to_block ==> final(engine)@.allowlist == old(engine)@.allowlist,
        !to_block ==> final(engine)@.blocklist == old(engine)@.blocklist,
        match add_domains(
            if to_block {
                old(engine)@.blocklist
            } else {
                old(engine)@.allowlist
            },
            args_view(domains),
            source@,
            category@,
        ) {
            Ok(list) => r is Ok && list == if to_block {
                final(engine)@.blocklist
            } else {
                final(engine)@.allowlist
            },
            Err(e) => r matches Err(x) && x@ == e,
        },
        (if to_block {
            final(engine)@.blocklist
        } else {
            final(engine)@.allowlist
        }) == add_domains_upto(
            if to_block {
                old(engine)@.blocklist
            } else {
                old(engine)@.allowlist
            },
            args_view(domains),
            source@,
            category@,
        ),
{
    let ghost dv = args_view(domains);
    let ghost start_list = if to_block {
        engine@.blocklist
    } else {
        engine@.allowlist
    };
    let ghost other = if to_block {
        engine@.allowlist
    } else {
        engine@.blocklist
    };
    let mut i: usize = 0;
    assert(dv.take(0) =~= Seq::<Seq<char>>::empty());
    while i < domains.len()
        invariant
            dv == args_view(domains),
            i <= domains@.len(),
            start_list == if to_block {
                old(engine)@.blocklist
            } else {
                old(engine)@.allowlist
            },
            other == if to_block {
                old(engine)@.allowlist
            } else {
                old(engine)@.blocklist
            },
            add_domains(start_list, dv.take(i as int), source@, category@) == Ok::<
                Seq<RuleView>,
                BlockerErrorView,
            >(
                if to_block {
                    engine@.blocklist
                } else {
                    engine@.allowlist
                },
            ),
            other == if to_block {
                engine@.allowlist
            } else {
                engine@.blocklist
            },
        decreases domains.len() - i,
    {
        assert(dv.take(i + 1).drop_last() =~= dv.take(i as int));
        assert(dv.take(i + 1).last() == domains@[i as int]@);
        let res = if to_block {
            engine.add_block_rule(domains[i].as_str(), Some(source), Some(category))
        } else {
            engine.add_allow_rule(domains[i].as_str(), Some(source), Some(category))
        };
        match res {
            Ok(()) => {},
            Err(e) => {
                proof {
                    lemma_add_domains_fails(start_list, dv, i + 1, source@, category@);
                    lemma_add_domains_upto_stops(start_list, dv, i + 1, source@, category@);
                }
                return Err(e);
            },
        }
        i = i + 1;
    }
    assert(dv.take(i as int) =~= dv);
    Ok(())
}

/// Adds the domains that the database allows as allow rules (source
/// `db-allowlist`, category `user`), stopping at the first that makes no rule.
pub fn add_stored_allow_rules(engine: &mut BlockerEngine, domains: &[String]) -> (r: Result<
    (),
    BlockerError,
>)
    ensures
        final(engine)@.blocklist == old(engine)@.blocklist,
        match add_domains(old(engine)@.allowlist, args_view(domains), "db-allowlist"@, "user"@) {
            Ok(list) => r is Ok && final(engine)@.allowlist == list,
            Err(e) => r matches Err(x) && x@ == e,
        },
        final(engine)@.allowlist == add_domains_upto(
            old(engine)@.allowlist,
            args_view(domains),
            "db-allowlist"@,
            "user"@,
        ),
{
    add_domain_rules(engine, domains, false, "db-allowlist", "user")
}

/// Adds the rules given on the command line: the block rules, then the allow
/// rules (source `cli`, category `manual`); the first domain that makes no
/// rule stops it.
pub fn add_manual_rules(
    engine: &mut BlockerEngine,
    block_rules: &[String],
    allow_rules: &[String],
) -> (r: Result<(), BlockerError>)
    ensures
        match add_domains(old(engine)@.blocklist, args_view(block_rules), "cli"@, "manual"@) {
            Err(e) => r matches Err(x) && x@ == e && final(engine)@.allowlist == old(
                engine,
            )@.allowlist,
            Ok(b) => final(engine)@.blocklist == b && match add_domains(
                old(engine)@.allowlist,
                args_view(allow_rules),
                "cli"@,
                "manual"@,
            ) {
                Ok(a) => r is Ok && final(engine)@.allowlist == a,
                Err(e) => r matches Err(x) && x@ == e,
            },
        },
        final(engine)@.blocklist == add_domains_upto(
            old(engine)@.blocklist,
            args_view(block_rules),
            "cli"@,
            "manual"@,
        ),
        add_domains(old(engine)@.blocklist, args_view(block_rules), "cli"@, "manual"@) is Ok
            ==> final(engine)@.allowlist == add_domains_upto(
            old(engine)@.allowlist,
            args_view(allow_rules),
            "cli"@,
            "manual"@,
        ),
{
    match add_domain_rules(engine, block_rules, true, "cli", "manual") {
        Ok(()) => {},
        Err(e) => return Err(e),
    }
    add_domain_rules(engine, allow_rules, false, "cli", "manual")
}

/// The headline that `check` prints for a decision.
pub fn decision_headline(decision: &BlockDecision) -> (s: &'static str)
    ensures
        s@ == match decision {
            BlockDecision::Blocked { .. } => "BLOCKED: "@,
            BlockDecision::Allowed { .. } => "ALLOWED BY LIST: "@,
            BlockDecision::AllowedByDefault => "ALLOWED BY DEFAULT: "@,
        },
{
    match decision {
        BlockDecision::Blocked { .. } => "BLOCKED: ",
        BlockDecision::Allowed { .. } => "ALLOWED BY LIST: ",
        BlockDecision::AllowedByDefault => "ALLOWED BY DEFAULT: ",
    }
}

/// The answer to one DNS request of `dns-serve`, as a function of the
/// database's state: with protection off the query is allowed by default
/// with the source `protection-disabled`; else the stored blocked and allowed
/// domains are added to a copy of the base engine, which decides. Any error is
/// given in its `Debug` form.
pub fn check_dns_request(
    base: &BlockerEngine,
    protection_enabled: bool,
    blocked_domains: &[String],
    allowed_domains: &[String],
    domain: &str,
) -> (r: Result<BlockEvent, String>)
    ensures
        !protection_enabled ==> (r matches Ok(ev) && {
            &&& ev.domain@ == domain@
            &&& ev.action == BlockAction::AllowedByDefault
            &&& ev.matched_rule is None
            &&& opt_string_view(ev.rule_source) == Some("protection-disabled"@)
            &&& ev.category is None
        }),
        protection_enabled ==> match add_domains(
            base@.blocklist,
            args_view(blocked_domains),
            "db-blocklist"@,
            "user"@,
        ) {
            Err(e) => r matches Err(m) && m@ == error_debug(e),
            Ok(b) => match add_domains(
                base@.allowlist,
                args_view(allowed_domains),
                "db-allowlist"@,
                "user"@,
            ) {
                Err(e) => r matches Err(m) && m@ == error_debug(e),
                Ok(a) => match check(b, a, domain@) {
                    Ok(dv) => r matches Ok(ev) && event_records(ev, normalize(domain@)->Ok_0, dv),
                    Err(e) => r matches Err(m) && m@ == error_debug(e),
                },
            },
        },
{
    if !protection_enabled {
        return Ok(
            BlockEvent::new(
                domain.to_owned(),
                BlockAction::AllowedByDefault,
                None,
                Some("protection-disabled".to_owned()),
                None,
            ),
        );
    }
    let mut engine = base.duplicate();
    match add_domain_rules(&mut engine, blocked_domains, true, "db-blocklist", "user") {
        Ok(()) => {},
        Err(e) => return Err(e.debug_text()),
    }
    match add_domain_rules(&mut engine, allowed_domains, false, "db-allowlist", "user") {
        Ok(()) => {},
        Err(e) => return Err(e.debug_text()),
    }
    match engine.check_domain_with_event(domain) {
        Ok(ev) => Ok(ev),
        Err(e) => Err(e.debug_text()),
    }
}

} // verus!
