//! Alerts to the parent's phone.
//!
//! The failure that matters is not a dropped message, it is a silently dropped one. So the last
//! success and the number of failures in a row are kept, and the admin page shows them.
use crate::fixed;
use crate::http;
use crate::text;
use vstd::prelude::*;

verus! {

/// Longest alert text. Anything longer is a design problem, not a truncation problem.
pub const MAX_MSG: usize = 160;

pub type Message = heapless::String<MAX_MSG>;

/// Health, for the admin page.
#[derive(Debug, Clone, Copy, PartialEq, Eq)]
pub struct Health {
    pub sent: u32,
    pub failed_in_a_row: u32,
    /// Uptime millis at the last success, or `None` if there has never been one.
    pub last_ok_ms: Option<u64>,
}

impl Default for Health {
    fn default() -> (r: Self)
        ensures
            r == (Health { sent: 0, failed_in_a_row: 0, last_ok_ms: None }),
    {
        Health { sent: 0, failed_in_a_row: 0, last_ok_ms: None }
    }
}

impl Health {
    /// The health once an alert got through.
    pub open spec fn after_success(self, now_ms: u64) -> Health {
        Health { sent: (self.sent + 1) as u32, failed_in_a_row: 0, last_ok_ms: Some(now_ms) }
    }

    /// The health once an alert did not get through.
    pub open spec fn after_failure(self) -> Health {
        Health { failed_in_a_row: (self.failed_in_a_row + 1) as u32, ..self }
    }

    /// An alert got through.
    pub fn succeeded(&mut self, now_ms: u64)
        requires
            old(self).sent < u32::MAX,
        ensures
            *final(self) == old(self).after_success(now_ms),
    {
        self.sent = self.sent + 1;
        self.failed_in_a_row = 0;
        self.last_ok_ms = Some(now_ms);
    }

    /// An alert did not get through. Says what to log.
    pub fn failed(&mut self, why: &str) -> (r: String)
        requires
            old(self).failed_in_a_row < u32::MAX,
        ensures
            *final(self) == old(self).after_failure(),
            r@ == "notify: send failed ("@ + why@ + "), "@ + text::decimal(
                (old(self).failed_in_a_row + 1) as nat,
            ) + " in a row"@,
    {
        self.failed_in_a_row = self.failed_in_a_row + 1;
        let mut out = String::new();
        out.append("notify: send failed (");
        out.append(why);
        out.append("), ");
        text::push_decimal(&mut out, self.failed_in_a_row as u64);
        out.append(" in a row");
        out
    }
}

/// The alert that is queued for a text: its first [`MAX_MSG`] bytes.
pub fn message(t: &str) -> (r: Message)
    requires
        fixed::can_cut(t@, MAX_MSG as nat),
    ensures
        exists|n: int| #[trigger] fixed::is_cut(t@, MAX_MSG as nat, n) && fixed::holds(r, t@.take(n)),
{
    let clipped: &str = fixed::cut(t, MAX_MSG);
    match fixed::fit(clipped) {
        Some(m) => m,
        None => fixed::empty(),
    }
}

/// Where alerts go.
pub struct Endpoint<'a> {
    /// Host header value, and the name to resolve where there is no literal address.
    pub host_header: &'a str,
    pub port: u16,
    pub topic: &'a str,
    pub tls: bool,
}

/// What is logged when the sender starts: only the first four bytes of the topic, which is as
/// good as a password.
pub fn greeting(e: &Endpoint) -> (r: String)
    requires
        fixed::can_cut(e.topic@, 4),
    ensures
        exists|n: int|
            #[trigger] fixed::is_cut(e.topic@, 4, n) && r@
                == "notify: sender up, posting to "@ + if e.tls {
                "https://"@
            } else {
                "http://"@
            } + e.host_header@ + ":"@ + text::decimal(e.port as nat) + "/"@ + e.topic@.take(n)
                + "… "@,
{
    let prefix: &str = fixed::cut(e.topic, 4);
    let mut out = String::new();
    out.append("notify: sender up, posting to ");
    if e.tls {
        out.append("https://");
    } else {
        out.append("http://");
    }
    out.append(e.host_header);
    out.append(":");
    text::push_decimal(&mut out, e.port as u64);
    out.append("/");
    out.append(prefix);
    out.append("… ");
    proof {
        let n = choose|n: int| #[trigger] fixed::is_cut(e.topic@, 4, n) && prefix@ == e.topic@.take(n);
        assert(fixed::is_cut(e.topic@, 4, n));
        assert(out@ =~= "notify: sender up, posting to "@ + if e.tls {
            "https://"@
        } else {
            "http://"@
        } + e.host_header@ + ":"@ + text::decimal(e.port as nat) + "/"@ + e.topic@.take(n) + "… "@);
    }
    out
}

/// The head of the request that publishes an alert.
pub open spec fn alert_head(topic: Seq<char>, host: Seq<char>, bytes: nat) -> Seq<char> {
    "POST /"@ + topic + " HTTP/1.1\r\nHost: "@ + host
        + "\r\nContent-Type: text/plain; charset=utf-8\r\nTitle: Medienzeit\r\nContent-Length: "@
        + text::decimal(bytes) + "\r\nConnection: close\r\n\r\n"@
}

/// The head of the request that publishes an alert, of at most 512 bytes.
pub fn request_head(e: &Endpoint, msg: &str) -> (r: Result<heapless::String<512>, &'static str>)
    ensures
        ({
            let head = alert_head(e.topic@, e.host_header@, fixed::byte_len(msg@));
            if fixed::byte_len(head) <= 512 {
                r is Ok && fixed::holds(r->Ok_0, head)
            } else {
                r is Err && r->Err_0@ == "request too long"@
            }
        }),
{
    let mut out = String::new();
    out.append("POST /");
    out.append(e.topic);
    out.append(" HTTP/1.1\r\nHost: ");
    out.append(e.host_header);
    out.append(
        "\r\nContent-Type: text/plain; charset=utf-8\r\nTitle: Medienzeit\r\nContent-Length: ",
    );
    text::push_decimal(&mut out, fixed::bytes_of(msg) as u64);
    out.append("\r\nConnection: close\r\n\r\n");
    assert(out@ =~= alert_head(e.topic@, e.host_header@, fixed::byte_len(msg@)));
    match fixed::fit(out.as_str()) {
        Some(s) => Ok(s),
        None => Err("request too long"),
    }
}

/// Whether a status says that the alert was taken.
pub open spec fn was_taken(status: nat) -> bool {
    200 <= status < 300
}

/// Whether the start of a response says that the alert was taken. `None` stands for bytes that
/// are not text.
pub fn verdict(start: Option<&str>) -> (r: Result<(), &'static str>)
    ensures
        match start {
            None => r is Err && r->Err_0@ == "not utf-8"@,
            Some(t) => match http::second_word_status(t@, 0, t@.len() as int) {
                None => r is Err && r->Err_0@ == "no status line"@,
                Some(n) => if was_taken(n) {
                    r is Ok
                } else {
                    r is Err && r->Err_0@ == "http error"@
                },
            },
        },
{
    match start {
        None => Err("not utf-8"),
        Some(t) => {
            let s: Vec<char> = text::chars_of(t);
            match http::status_word(s.as_slice(), 0, s.len()) {
                None => Err("no status line"),
                Some(n) => if 200 <= n && n < 300 {
                    Ok(())
                } else {
                    Err("http error")
                },
            }
        },
    }
}

/// Failures in a row are counted until an alert gets through, which is remembered; failures do not
/// touch what is known of the last success.
pub proof fn failures_are_counted_in_a_row(h: Health, now_ms: u64)
    requires
        h.sent < u32::MAX,
        h.failed_in_a_row < u32::MAX,
    ensures
        h.after_failure().failed_in_a_row == h.failed_in_a_row + 1,
        h.after_failure().sent == h.sent,
        h.after_failure().last_ok_ms == h.last_ok_ms,
        h.after_success(now_ms).failed_in_a_row == 0,
        h.after_success(now_ms).sent == h.sent + 1,
        h.after_success(now_ms).last_ok_ms == Some(now_ms),
        h.after_failure().after_success(now_ms) == h.after_success(now_ms),
{
}

/// An alert that fits is sent as it is, and a longer one to its 160th byte.
pub proof fn an_alert_is_cut_at_its_last_byte(t: Seq<char>, n: int)
    requires
        fixed::is_cut(t, MAX_MSG as nat, n),
    ensures
        fixed::byte_len(t) <= 160 ==> t.take(n) == t,
        fixed::byte_len(t) > 160 ==> fixed::byte_len(t.take(n)) == 160,
{
    if fixed::byte_len(t) <= 160 {
        assert(t.take(t.len() as int) =~= t);
        assert(fixed::is_cut(t, MAX_MSG as nat, t.len() as int));
        fixed::cuts_in_one_place(t, MAX_MSG as nat, n, t.len() as int);
    }
}

/// The request that publishes an alert names the topic and the host, and says how long the alert is.
#[verifier::rlimit(60)]
pub proof fn an_alert_is_addressed(topic: Seq<char>, host: Seq<char>, bytes: nat)
    ensures
        alert_head(topic, host, bytes) == "POST /"@ + topic + " HTTP/1.1\r\n"@ + http::header_lines(
            seq![
                ("Host"@, host),
                ("Content-Type"@, "text/plain; charset=utf-8"@),
                ("Title"@, "Medienzeit"@),
                ("Content-Length"@, text::decimal(bytes)),
                ("Connection"@, "close"@),
            ],
        ) + "\r\n"@,
{
    reveal_with_fuel(http::header_lines, 6);
    let headers = seq![
        ("Host"@, host),
        ("Content-Type"@, "text/plain; charset=utf-8"@),
        ("Title"@, "Medienzeit"@),
        ("Content-Length"@, text::decimal(bytes)),
        ("Connection"@, "close"@),
    ];
    let h1 = headers.drop_first();
    let h2 = h1.drop_first();
    let h3 = h2.drop_first();
    let h4 = h3.drop_first();
    assert(h1[0] == headers[1] && h2[0] == headers[2] && h3[0] == headers[3] && h4[0]
        == headers[4]);
    assert(h4.drop_first().len() == 0);
    reveal_strlit("POST /");
    reveal_strlit(" HTTP/1.1\r\n");
    reveal_strlit(" HTTP/1.1\r\nHost: ");
    reveal_strlit("Host");
    reveal_strlit("Content-Type");
    reveal_strlit("text/plain; charset=utf-8");
    reveal_strlit("Title");
    reveal_strlit("Medienzeit");
    reveal_strlit("Content-Length");
    reveal_strlit("Connection");
    reveal_strlit("close");
    reveal_strlit("\r\n");
    reveal_strlit(
        "\r\nContent-Type: text/plain; charset=utf-8\r\nTitle: Medienzeit\r\nContent-Length: ",
    );
    reveal_strlit("\r\nConnection: close\r\n\r\n");
    let line_one = "Content-Type"@ + seq![':', ' '] + "text/plain; charset=utf-8"@ + seq!['\r', '\n'];
    let line_two = "Title"@ + seq![':', ' '] + "Medienzeit"@ + seq!['\r', '\n'];
    let line_end = "Connection"@ + seq![':', ' '] + "close"@ + seq!['\r', '\n'];
    assert(" HTTP/1.1\r\nHost: "@ =~= " HTTP/1.1\r\n"@ + "Host"@ + seq![':', ' ']);
    assert("\r\nContent-Type: text/plain; charset=utf-8\r\nTitle: Medienzeit\r\nContent-Length: "@
        =~= seq!['\r', '\n'] + line_one + line_two + "Content-Length"@ + seq![':', ' ']);
    assert("\r\nConnection: close\r\n\r\n"@ =~= seq!['\r', '\n'] + line_end + "\r\n"@);
    let lines = http::header_lines(headers);
    assert(lines =~= "Host"@ + seq![':', ' '] + host + seq!['\r', '\n'] + (line_one + (line_two + (
    "Content-Length"@ + seq![':', ' '] + text::decimal(bytes) + seq!['\r', '\n'] + line_end))));
    assert(alert_head(topic, host, bytes) =~= "POST /"@ + topic + " HTTP/1.1\r\n"@ + lines
        + "\r\n"@);
}

/// An alert was taken where the status is one of the hundred that say so.
pub proof fn an_alert_was_taken_in_the_two_hundreds(status: nat)
    ensures
        was_taken(status) <==> status / 100 == 2,
{
}

} // verus!
