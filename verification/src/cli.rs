//! The command line that talks to the box by hand.
use crate::fixed;
use crate::http;
use crate::text;
use crate::tr064;
use crate::tr064::digest;
use crate::tr064::digest::Challenge;
use crate::tr064::hostfilter;
use crate::tr064::hosts;
use crate::tr064::hosts::HostEntry;
use crate::tr064::soap;
use crate::tr064::soap::Action;
use vstd::prelude::*;

verus! {

/// What can be asked for.
#[derive(Debug, Clone, Copy, PartialEq, Eq, Structural)]
pub enum Command {
    /// Resolve a MAC to its IP and show whether it is online.
    Host,
    /// Cut the device off the internet.
    Block,
    /// Restore internet access.
    Unblock,
    /// Report whether the device is currently blocked.
    Status,
}

/// How to use the program.
pub open spec fn usage_text() -> Seq<char> {
    "usage: tr064-cli <command>\n\n  host <MAC>       resolve a MAC to its IP and show whether it is online\n  block <IP>       cut the device off the internet\n  unblock <IP>     restore internet access\n  status <IP>      report whether the device is currently blocked\n\nenv: FRITZBOX_HOST (default fritz.box), FRITZBOX_USER, FRITZBOX_PASS"@
}

/// How to use the program.
pub fn usage() -> (r: String)
    ensures
        r@ == usage_text(),
{
    let mut out = String::new();
    out.append(
        "usage: tr064-cli <command>\n\n  host <MAC>       resolve a MAC to its IP and show whether it is online\n  block <IP>       cut the device off the internet\n  unblock <IP>     restore internet access\n  status <IP>      report whether the device is currently blocked\n\nenv: FRITZBOX_HOST (default fritz.box), FRITZBOX_USER, FRITZBOX_PASS",
    );
    assert(out@ =~= usage_text());
    out
}

/// The command that a word names.
pub open spec fn command_of(word: Seq<char>) -> Option<Command> {
    if word == "host"@ {
        Some(Command::Host)
    } else if word == "block"@ {
        Some(Command::Block)
    } else if word == "unblock"@ {
        Some(Command::Unblock)
    } else if word == "status"@ {
        Some(Command::Status)
    } else {
        None
    }
}

pub(crate) fn same(a: &str, b: &str) -> (r: bool)
    ensures
        r == (a@ == b@),
{
    let x: Vec<char> = text::chars_of(a);
    let y: Vec<char> = text::chars_of(b);
    let r: bool = text::is_text(x.as_slice(), y.as_slice(), 0, x.len());
    assert(x@.subrange(0, x@.len() as int) =~= x@);
    r
}

/// The command and its argument; anything but one known command with one argument is answered
/// with the usage.
pub fn parse_args(args: &Vec<String>) -> (r: Result<(Command, &str), String>)
    ensures
        match r {
            Ok((c, a)) => args@.len() == 2 && command_of(args@[0]@) == Some(c) && a@ == args@[1]@,
            Err(e) => e@ == usage_text() && (args@.len() != 2 || command_of(args@[0]@) is None),
        },
{
    if args.len() != 2 {
        return Err(usage());
    }
    let word: &str = args[0].as_str();
    let command: Command = if same(word, "host") {
        Command::Host
    } else if same(word, "block") {
        Command::Block
    } else if same(word, "unblock") {
        Command::Unblock
    } else if same(word, "status") {
        Command::Status
    } else {
        return Err(usage());
    };
    Ok((command, args[1].as_str()))
}

/// What to do after the first response: finish, or send the request again with this header.
pub enum Next {
    Finish(Result<String, String>),
    Authorize(String),
}

/// What a response that is not a challenge comes to.
pub open spec fn finished(status: u16, body: Seq<char>) -> Result<Seq<char>, Seq<char>> {
    if status == 200 || status == 500 {
        Ok(body)
    } else {
        Err("unexpected HTTP "@ + text::decimal(status as nat))
    }
}

/// Whether `r` says what a spec-level result says.
pub open spec fn says(r: Result<String, String>, want: Result<Seq<char>, Seq<char>>) -> bool {
    match want {
        Ok(t) => r is Ok && r->Ok_0@ == t,
        Err(e) => r is Err && r->Err_0@ == e,
    }
}

/// What a response comes to. A SOAP Fault arrives as HTTP 500 with a parseable body, so 500 is
/// handed onward and the codec turns it into a typed error.
pub fn finish(status: u16, body: &str) -> (r: Result<String, String>)
    ensures
        says(r, finished(status, body@)),
{
    if status == 200 || status == 500 {
        Ok(body.to_owned())
    } else {
        let mut out = String::new();
        out.append("unexpected HTTP ");
        text::push_decimal(&mut out, status as u64);
        Err(out)
    }
}

/// What the second response comes to.
pub fn finish_authenticated(status: u16, body: &str) -> (r: Result<String, String>)
    ensures
        says(
            r,
            if status == 401 {
                Err(
                    "authentication rejected — check FRITZBOX_USER / FRITZBOX_PASS, and that the user has box-settings permission"@,
                )
            } else {
                finished(status, body@)
            },
        ),
{
    if status == 401 {
        let mut out = String::new();
        out.append(
            "authentication rejected — check FRITZBOX_USER / FRITZBOX_PASS, and that the user has box-settings permission",
        );
        assert(out@ =~= "authentication rejected — check FRITZBOX_USER / FRITZBOX_PASS, and that the user has box-settings permission"@);
        return Err(out);
    }
    finish(status, body)
}

/// Where the second line of a head begins, or its end.
pub open spec fn second_line(head: Seq<char>) -> int {
    http::line_end(head, 0).1
}

/// Whether `r` is the right answer to a challenge in the head of a 401 response.
pub open spec fn answers(
    head: Seq<char>,
    user: Seq<char>,
    pass: Seq<char>,
    uri: Seq<char>,
    cnonce: Seq<char>,
    r: Next,
) -> bool {
    match http::header_value(head, "www-authenticate"@, second_line(head)) {
        None => r is Finish && says(
            r->Finish_0,
            Err("FRITZ!Box returned 401 without a WWW-Authenticate header"@),
        ),
        Some((a, b)) => exists|parsed: Result<Challenge, tr064::Error>|
            #[trigger] Challenge::is_parsed(head.subrange(a, b), parsed) && match parsed {
                Err(e) => r is Finish && says(r->Finish_0, Err(e.wording())),
                Ok(c) => exists|t: digest::Terms|
                    t.of(c) && t.qop_auth == c.qop_auth && {
                        let auth = #[trigger] t.authorization(user, pass, "POST"@, uri, 1, cnonce);
                        if t.size(user, uri, cnonce) <= 512 {
                            r is Authorize && r->Authorize_0@ == auth
                        } else {
                            r is Finish && says(
                                r->Finish_0,
                                Err(tr064::Error::BufferFull.wording()),
                            )
                        }
                    },
            },
    }
}

/// What to do with the first response: a 401 is answered with the digest of the credentials,
/// anything else is the end of it.
pub fn after_first(
    response: &http::Response,
    user: &str,
    pass: &str,
    uri: &str,
    cnonce: &str,
) -> (r: Next)
    ensures
        response.status != 401 ==> r is Finish && says(
            r->Finish_0,
            finished(response.status, response.body@),
        ),
        response.status == 401 ==> answers(
            response.head@,
            user@,
            pass@,
            uri@,
            cnonce@,
            r,
        ),
{
    if response.status != 401 {
        return Next::Finish(finish(response.status, response.body));
    }
    let head: Vec<char> = text::chars_of(response.head);
    let name: Vec<char> = text::chars_of("www-authenticate");
    let (_end, from) = http::end_of_line(head.as_slice(), 0);
    let line: &str = match http::find_header(head.as_slice(), name.as_slice(), from) {
        Some((a, b)) => response.head.substring_char(a, b),
        None => {
            let mut out = String::new();
            out.append("FRITZ!Box returned 401 without a WWW-Authenticate header");
            assert(out@ =~= "FRITZ!Box returned 401 without a WWW-Authenticate header"@);
            return Next::Finish(Err(out));
        },
    };
    let parsed = Challenge::parse(line);
    assert(Challenge::is_parsed(line@, parsed));
    match parsed {
        Err(e) => {
            let r = Next::Finish(Err(e.message()));
            assert(answers(response.head@, user@, pass@, uri@, cnonce@, r));
            r
        },
        Ok(c) => {
            let auth: Result<heapless::String<512>, tr064::Error> = c.authorization(
                user,
                pass,
                "POST",
                uri,
                1,
                cnonce,
            );
            let ghost t = choose|t: digest::Terms|
                t.of(c) && t.qop_auth == c.qop_auth && crate::tr064::soap::fits(
                    #[trigger] t.authorization(user@, pass@, "POST"@, uri@, 1, cnonce@),
                    auth,
                ) && fixed::byte_len(
                    t.authorization(user@, pass@, "POST"@, uri@, 1, cnonce@),
                ) == t.size(user@, uri@, cnonce@);
            let r = match auth {
                Ok(a) => {
                    let t2: &str = fixed::read(&a);
                    proof {
                        fixed::holds_one_text(
                            a,
                            t2,
                            t.authorization(user@, pass@, "POST"@, uri@, 1, cnonce@),
                        );
                    }
                    Next::Authorize(t2.to_owned())
                },
                Err(e) => Next::Finish(Err(e.message())),
            };
            assert(Challenge::is_parsed(line@, Ok(c)));
            assert(t.of(c) && t.qop_auth == c.qop_auth);
            assert(answers(response.head@, user@, pass@, uri@, cnonce@, r));
            r
        },
    }
}

/// What to print of a host.
pub fn describe_host(h: &HostEntry) -> (r: (String, String, String))
    ensures
        exists|ip: &str, name: &str|
            #![trigger fixed::holds(h.ip, ip@), fixed::holds(h.hostname, name@)]
            fixed::holds(h.ip, ip@) && fixed::holds(h.hostname, name@) && r.0@ == "ip       "@ + ip@
                && r.2@ == "hostname "@ + if name@.len() == 0 {
                "-"@
            } else {
                name@
            },
        r.1@ == "online   "@ + if h.active {
            "yes"@
        } else {
            "no"@
        },
{
    let ip: &str = fixed::read(&h.ip);
    let name: &str = fixed::read(&h.hostname);
    let mut a = String::new();
    a.append("ip       ");
    a.append(ip);
    let mut b = String::new();
    b.append("online   ");
    b.append(
        if h.active {
            "yes"
        } else {
            "no"
        },
    );
    let mut c = String::new();
    c.append("hostname ");
    if name.is_empty() {
        c.append("-");
    } else {
        c.append(name);
    }
    assert(fixed::holds(h.ip, ip@) && fixed::holds(h.hostname, name@));
    (a, b, c)
}

/// What to print after a change was acknowledged.
pub fn describe_change(ip: &str, disallow: bool) -> (r: String)
    ensures
        r@ == ip@ + " "@ + if disallow {
            "blocked"@
        } else {
            "unblocked"@
        },
{
    let mut out = String::new();
    out.append(ip);
    out.append(" ");
    out.append(
        if disallow {
            "blocked"
        } else {
            "unblocked"
        },
    );
    assert(out@ =~= ip@ + " "@ + if disallow {
        "blocked"@
    } else {
        "unblocked"@
    });
    out
}

/// What to print of the state that was read back, and whether the box applied the change. A
/// silent no-op would be the worst possible outcome.
pub fn check_readback(now: bool, disallow: bool) -> (r: (String, Result<(), String>))
    ensures
        r.0@ == "readback "@ + if now {
            "blocked"@
        } else {
            "allowed"@
        },
        now == disallow ==> r.1 is Ok,
        now != disallow ==> r.1 is Err && r.1->Err_0@
            == "the box did not apply the change — check user permissions"@,
{
    let mut out = String::new();
    out.append("readback ");
    out.append(
        if now {
            "blocked"
        } else {
            "allowed"
        },
    );
    if now == disallow {
        (out, Ok(()))
    } else {
        let mut e = String::new();
        e.append("the box did not apply the change — check user permissions");
        assert(e@ =~= "the box did not apply the change — check user permissions"@);
        (out, Err(e))
    }
}

/// What to print of a device's state.
pub fn describe_status(ip: &str, blocked: bool) -> (r: String)
    ensures
        r@ == ip@ + " "@ + if blocked {
            "blocked"@
        } else {
            "allowed"@
        },
{
    let mut out = String::new();
    out.append(ip);
    out.append(" ");
    out.append(
        if blocked {
            "blocked"
        } else {
            "allowed"
        },
    );
    assert(out@ =~= ip@ + " "@ + if blocked {
        "blocked"@
    } else {
        "allowed"@
    });
    out
}

/// Which answer of the box is due.
#[derive(Clone, Copy)]
pub enum Errand<'a> {
    /// The entry of a host.
    LookingUp,
    /// The state of a device, to be reported.
    Inquiring { ip: &'a str },
    /// The acknowledgement of a change.
    Changing { ip: &'a str, disallow: bool },
    /// The state of a device, to be held against the change that was acknowledged.
    ReadingBack { ip: &'a str, disallow: bool },
}

/// Something to send to the box.
pub struct Request {
    pub action: Action,
    pub body: String,
}

/// What to do next: send a request and come back with the answer, or finish. In either case
/// there may be something to print first.
pub enum Step<'a> {
    Ask { lines: Vec<String>, request: Request, then: Errand<'a> },
    Done { lines: Vec<String>, outcome: Result<(), String> },
}

/// Whether a step is the end, with this outcome.
pub open spec fn ends(r: Step, lines: Seq<Seq<char>>, outcome: Result<(), Seq<char>>) -> bool {
    &&& r is Done
    &&& text::texts(r->Done_lines@) == lines
    &&& match outcome {
        Ok(_) => r->outcome is Ok,
        Err(e) => r->outcome is Err && r->outcome->Err_0@ == e,
    }
}

/// Whether a step sends a request, or says that the request did not fit.
pub open spec fn asks(
    r: Step,
    lines: Seq<Seq<char>>,
    action: Action,
    body: Seq<char>,
    then: Errand,
) -> bool {
    if fixed::byte_len(body) <= 640 {
        &&& r is Ask
        &&& text::texts(r->Ask_lines@) == lines
        &&& r->request.action == action
        &&& r->request.body@ == body
        &&& r->then == then
    } else {
        ends(r, lines, Err(tr064::Error::BufferFull.wording()))
    }
}

/// The question whether an IP is blocked.
pub open spec fn access_question(ip: &str) -> Seq<char> {
    hostfilter::question_text(ip)
}

/// The order to block an IP, or to let it through again.
pub open spec fn access_order(ip: &str, disallow: bool) -> Seq<char> {
    hostfilter::order_text(ip, disallow)
}

/// Whether a command begins with this step.
pub open spec fn begins(command: Command, arg: &str, r: Step) -> bool {
    let none = Seq::<Seq<char>>::empty();
    match command {
        Command::Host => asks(
            r,
            none,
            hosts::host_entry_action(),
            hosts::lookup_text(arg),
            Errand::LookingUp,
        ),
        Command::Block => asks(
            r,
            none,
            hostfilter::disallow_action(),
            access_order(arg, true),
            Errand::Changing { ip: arg, disallow: true },
        ),
        Command::Unblock => asks(
            r,
            none,
            hostfilter::disallow_action(),
            access_order(arg, false),
            Errand::Changing { ip: arg, disallow: false },
        ),
        Command::Status => asks(
            r,
            none,
            hostfilter::access_action(),
            access_question(arg),
            Errand::Inquiring { ip: arg },
        ),
    }
}

/// Whether some lines show a host.
pub open spec fn shows_host(h: HostEntry, lines: Seq<Seq<char>>) -> bool {
    exists|ip: &str, name: &str|
        #![trigger fixed::holds(h.ip, ip@), fixed::holds(h.hostname, name@)]
        {
            &&& fixed::holds(h.ip, ip@)
            &&& fixed::holds(h.hostname, name@)
            &&& lines == seq![
                "ip       "@ + ip@,
                "online   "@ + if h.active {
                    "yes"@
                } else {
                    "no"@
                },
                "hostname "@ + if name@.len() == 0 {
                    "-"@
                } else {
                    name@
                },
            ]
        }
}

/// What is printed after a change was acknowledged.
pub open spec fn change_line(ip: Seq<char>, disallow: bool) -> Seq<char> {
    ip + " "@ + if disallow {
        "blocked"@
    } else {
        "unblocked"@
    }
}

/// What is printed of a state.
pub open spec fn state_line(what: Seq<char>, blocked: bool) -> Seq<char> {
    what + if blocked {
        "blocked"@
    } else {
        "allowed"@
    }
}

/// Whether an answer leads to this step. A change that was acknowledged is not trusted: the state
/// of the same device is read back, and only the state that was asked for is a success.
pub open spec fn follows(state: Errand, answer: Seq<char>, r: Step) -> bool {
    let none = Seq::<Seq<char>>::empty();
    match state {
        Errand::LookingUp => exists|parsed: Result<HostEntry, tr064::Error>|
            #[trigger] hosts::is_host_entry(answer, parsed) && match parsed {
                Err(e) => ends(r, none, Err(e.wording())),
                Ok(h) => r is Done && ends(r, text::texts(r->Done_lines@), Ok(())) && shows_host(
                    h,
                    text::texts(r->Done_lines@),
                ),
            },
        Errand::Inquiring { ip } => match hostfilter::wan_access(answer) {
            Err(e) => ends(r, none, Err(e.wording())),
            Ok(now) => ends(r, seq![state_line(ip@ + " "@, now)], Ok(())),
        },
        Errand::Changing { ip, disallow } => match soap::fault_of(answer) {
            Some(code) => ends(r, none, Err(tr064::Error::SoapFault(code as u16).wording())),
            None => asks(
                r,
                seq![change_line(ip@, disallow)],
                hostfilter::access_action(),
                access_question(ip),
                Errand::ReadingBack { ip, disallow },
            ),
        },
        Errand::ReadingBack { ip: _, disallow } => match hostfilter::wan_access(answer) {
            Err(e) => ends(r, none, Err(e.wording())),
            Ok(now) => ends(
                r,
                seq![state_line("readback "@, now)],
                if now == disallow {
                    Ok(())
                } else {
                    Err("the box did not apply the change — check user permissions"@)
                },
            ),
        },
    }
}

fn done<'a>(outcome: Result<(), String>) -> (r: Step<'a>)
    ensures
        match outcome {
            Ok(_) => ends(r, Seq::empty(), Ok(())),
            Err(e) => ends(r, Seq::empty(), Err(e@)),
        },
{
    let lines: Vec<String> = Vec::new();
    assert(text::texts(lines@) =~= Seq::<Seq<char>>::empty());
    Step::Done { lines, outcome }
}

/// The step that sends a body, where it could be written.
fn ask<'a>(
    lines: Vec<String>,
    action: Action,
    body: Result<heapless::String<640>, tr064::Error>,
    then: Errand<'a>,
    Ghost(want): Ghost<Seq<char>>,
) -> (r: Step<'a>)
    requires
        soap::fits(want, body),
    ensures
        asks(r, text::texts(lines@), action, want, then),
{
    match body {
        Err(e) => Step::Done { lines, outcome: Err(e.message()) },
        Ok(b) => {
            let t: &str = fixed::read(&b);
            proof {
                fixed::holds_one_text(b, t, want);
            }
            Step::Ask { lines, request: Request { action, body: t.to_owned() }, then }
        },
    }
}

/// The first step of a command.
pub fn begin<'a>(command: Command, arg: &'a str) -> (r: Step<'a>)
    ensures
        begins(command, arg, r),
{
    let lines: Vec<String> = Vec::new();
    assert(text::texts(lines@) =~= Seq::<Seq<char>>::empty());
    match command {
        Command::Host => ask(
            lines,
            hosts::GET_SPECIFIC_HOST_ENTRY(),
            hosts::get_specific_host_entry(arg),
            Errand::LookingUp,
            Ghost(
                hosts::lookup_text(arg),
            ),
        ),
        Command::Block => ask(
            lines,
            hostfilter::DISALLOW_WAN_ACCESS_BY_IP(),
            hostfilter::disallow_wan_access_by_ip(arg, true),
            Errand::Changing { ip: arg, disallow: true },
            Ghost(access_order(arg, true)),
        ),
        Command::Unblock => ask(
            lines,
            hostfilter::DISALLOW_WAN_ACCESS_BY_IP(),
            hostfilter::disallow_wan_access_by_ip(arg, false),
            Errand::Changing { ip: arg, disallow: false },
            Ghost(access_order(arg, false)),
        ),
        Command::Status => ask(
            lines,
            hostfilter::GET_WAN_ACCESS_BY_IP(),
            hostfilter::get_wan_access_by_ip(arg),
            Errand::Inquiring { ip: arg },
            Ghost(access_question(arg)),
        ),
    }
}

/// The step after an answer of the box.
pub fn next<'a>(state: Errand<'a>, answer: &str) -> (r: Step<'a>)
    ensures
        follows(state, answer@, r),
{
    let mut lines: Vec<String> = Vec::new();
    assert(text::texts(lines@) =~= Seq::<Seq<char>>::empty());
    match state {
        Errand::LookingUp => {
            let parsed = hosts::parse_host_entry(answer);
            assert(hosts::is_host_entry(answer@, parsed));
            match parsed {
                Err(e) => done(Err(e.message())),
                Ok(h) => {
                    let (ip, online, hostname) = describe_host(&h);
                    let ghost shown = seq![ip@, online@, hostname@];
                    text::push_line(&mut lines, ip);
                    text::push_line(&mut lines, online);
                    text::push_line(&mut lines, hostname);
                    assert(text::texts(lines@) =~= shown);
                    assert(shows_host(h, text::texts(lines@)));
                    Step::Done { lines, outcome: Ok(()) }
                },
            }
        },
        Errand::Inquiring { ip } => match hostfilter::parse_wan_access(answer) {
            Err(e) => done(Err(e.message())),
            Ok(now) => {
                text::push_line(&mut lines, describe_status(ip, now));
                assert(text::texts(lines@) =~= seq![state_line(ip@ + " "@, now)]);
                Step::Done { lines, outcome: Ok(()) }
            },
        },
        Errand::Changing { ip, disallow } => match hostfilter::parse_disallow_ack(answer) {
            Err(e) => done(Err(e.message())),
            Ok(_) => {
                text::push_line(&mut lines, describe_change(ip, disallow));
                assert(text::texts(lines@) =~= seq![change_line(ip@, disallow)]);
                ask(
                    lines,
                    hostfilter::GET_WAN_ACCESS_BY_IP(),
                    hostfilter::get_wan_access_by_ip(ip),
                    Errand::ReadingBack { ip, disallow },
                    Ghost(access_question(ip)),
                )
            },
        },
        Errand::ReadingBack { ip: _, disallow } => match hostfilter::parse_wan_access(answer) {
            Err(e) => done(Err(e.message())),
            Ok(now) => {
                let (line, outcome) = check_readback(now, disallow);
                text::push_line(&mut lines, line);
                assert(text::texts(lines@) =~= seq![state_line("readback "@, now)]);
                Step::Done { lines, outcome }
            },
        },
    }
}

/// Blocking and letting through again succeed only where the box, asked about the same device
/// after it acknowledged the change, reports the state that was asked for.
pub proof fn a_change_is_read_back(
    ip: &str,
    disallow: bool,
    first: Step,
    acknowledgement: Seq<char>,
    second: Step,
    readback: Seq<char>,
    third: Step,
)
    requires
        begins(
            if disallow {
                Command::Block
            } else {
                Command::Unblock
            },
            ip,
            first,
        ),
        first is Ask,
        follows(first->then, acknowledgement, second),
        second is Ask,
        follows(second->then, readback, third),
    ensures
        first->request.body@ == access_order(ip, disallow),
        soap::fault_of(acknowledgement) is None,
        second->request.body@ == access_question(ip),
        third is Done,
        third->outcome is Ok <==> hostfilter::wan_access(readback) == Ok::<bool, tr064::Error>(
            disallow,
        ),
{
}

/// No step but the one that reads the state back lets a change succeed.
pub proof fn an_acknowledgement_is_no_success(ip: &str, disallow: bool, answer: Seq<char>, r: Step)
    requires
        follows(Errand::Changing { ip, disallow }, answer, r),
    ensures
        r is Done ==> r->outcome is Err,
{
}

/// A client nonce of sixteen hexadecimal digits.
pub fn cnonce(nanos: u64) -> (r: String)
    ensures
        r@ == text::hex_word((nanos / 0x1_0000_0000) as u32) + text::hex_word(
            (nanos % 0x1_0000_0000) as u32,
        ),
{
    let mut out = String::new();
    text::push_hex_word(&mut out, (nanos / 0x1_0000_0000) as u32);
    text::push_hex_word(&mut out, (nanos % 0x1_0000_0000) as u32);
    assert(out@ =~= text::hex_word((nanos / 0x1_0000_0000) as u32) + text::hex_word(
        (nanos % 0x1_0000_0000) as u32,
    ));
    out
}

/// A response is read on where it worked or tells of a fault; any other status is an error that
/// names it.
pub proof fn only_success_and_faults_are_read(status: u16, body: Seq<char>)
    ensures
        finished(status, body) is Ok <==> status == 200 || status == 500,
        finished(status, body) is Ok ==> finished(status, body)->Ok_0 == body,
        finished(status, body) is Err ==> finished(status, body)->Err_0 == "unexpected HTTP "@
            + text::decimal(status as nat),
{
}

/// The commands are told apart by their words, and no other word is one.
pub proof fn commands_have_their_words(word: Seq<char>)
    ensures
        command_of("host"@) == Some(Command::Host),
        command_of("block"@) == Some(Command::Block),
        command_of("unblock"@) == Some(Command::Unblock),
        command_of("status"@) == Some(Command::Status),
        command_of(word) is Some ==> word == "host"@ || word == "block"@ || word == "unblock"@
            || word == "status"@,
{
    reveal_strlit("host");
    reveal_strlit("block");
    reveal_strlit("unblock");
    reveal_strlit("status");
    assert("host"@.len() == 4 && "block"@.len() == 5 && "unblock"@.len() == 7 && "status"@.len()
        == 6);
}

/// A command asks the box what it is for: `block` orders the device blocked, `unblock` orders it let
/// through, and the order says so in the box's own terms.
pub proof fn a_command_orders_what_it_says(ip: &str, r: Step, lines: Seq<Seq<char>>, then: Errand)
    requires
        asks(r, lines, hostfilter::disallow_action(), access_order(ip, true), then),
        fixed::byte_len(access_order(ip, true)) <= 640,
    ensures
        r is Ask,
        soap::element(r->request.body@, "NewIPv4Address"@) == Some(soap::escaped(ip@)),
        soap::truth(soap::element(r->request.body@, "NewDisallow"@)->0) == Some(true),
        soap::truth(soap::element(access_order(ip, false), "NewDisallow"@)->0) == Some(false),
{
    hostfilter::an_order_says_what_it_orders(ip, true);
    hostfilter::an_order_says_what_it_orders(ip, false);
}

} // verus!
