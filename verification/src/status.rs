//! Decisions behind the system commands (`status`, `log`, `time`,
//! `update`, `files`): what the Miniserver's replies mean and what is shown.

use vstd::prelude::*;
use crate::config::{chars_equal, spells};
use crate::text::{views_of, chars_of, contains_chars, contains_seq, is_white_space, white_space, push_str, push_chars, string_of, sub_chars, last_index_of, lemma_last_index_of, rfind_char};
use crate::xml::{xml_attr, xml_attr_value};

verus! {

/// The label of a PLC state code (`/dev/sps/state`); unknown codes are shown
/// as they are.
pub open spec fn plc_label(code: Seq<char>) -> Seq<char> {
    if code == "5"@ {
        "✓ Running"@
    } else if code == "3"@ {
        "Started"@
    } else if code == "7"@ {
        "⚠ Error"@
    } else if code == "1"@ {
        "Booting"@
    } else if code == "8"@ {
        "Updating"@
    } else {
        code
    }
}

/// Labels a PLC state code.
pub fn plc_state_label(code: &str) -> (s: String)
    ensures
        s@ == plc_label(code@),
{
    let v = chars_of(code);
    if spells(&v, "5") {
        "✓ Running".to_owned()
    } else if spells(&v, "3") {
        "Started".to_owned()
    } else if spells(&v, "7") {
        "⚠ Error".to_owned()
    } else if spells(&v, "1") {
        "Booting".to_owned()
    } else if spells(&v, "8") {
        "Updating".to_owned()
    } else {
        code.to_owned()
    }
}

/// Online unless the status reply's `Offline` attribute is present and
/// other than `false`.
pub open spec fn is_online(offline: Option<Seq<char>>) -> bool {
    match offline {
        Some(v) => v == "false"@,
        None => true,
    }
}

/// The online marker of the status overview.
pub fn online_label(offline: Option<&str>) -> (s: String)
    ensures
        s@ == (if is_online(match offline { Some(v) => Some(v@), None => None }) { "✓ Online"@ } else { "✗ Offline"@ }),
{
    let online = match offline {
        Some(v) => {
            let c = chars_of(v);
            spells(&c, "false")
        },
        None => true,
    };
    if online {
        "✓ Online".to_owned()
    } else {
        "✗ Offline".to_owned()
    }
}

/// The lines of `s` from position `start` on, as `str::lines` splits them:
/// at each `\n`, a `\r` right before it dropped, no empty line after a
/// final `\n`.
pub open spec fn lines_from(s: Seq<char>, start: int) -> Seq<Seq<char>>
    decreases s.len() - start,
{
    if start < 0 || start >= s.len() {
        Seq::empty()
    } else {
        match first_newline(s, start) {
            Some(j) => {
                proof {
                    lemma_first_newline(s, start);
                }
                let raw = s.subrange(start, j);
                let line = if raw.len() > 0 && raw.last() == '\r' { raw.drop_last() } else { raw };
                seq![line] + lines_from(s, j + 1)
            },
            None => seq![s.subrange(start, s.len() as int)],
        }
    }
}

/// The first `\n` at or after `from`.
pub open spec fn first_newline(s: Seq<char>, from: int) -> Option<int>
    decreases s.len() - from,
{
    if from < 0 || from >= s.len() {
        None
    } else if s[from] == '\n' {
        Some(from)
    } else {
        first_newline(s, from + 1)
    }
}

/// A found newline lies at or after the start and inside the text.
pub proof fn lemma_first_newline(s: Seq<char>, from: int)
    ensures
        first_newline(s, from) matches Some(j) ==> from <= j < s.len() && s[j] == '\n',
    decreases s.len() - from,
{
    if 0 <= from < s.len() && s[from] != '\n' {
        lemma_first_newline(s, from + 1);
    }
}

/// The lines of a text, as `str::lines` gives them.
pub open spec fn lines_of(s: Seq<char>) -> Seq<Seq<char>> {
    lines_from(s, 0)
}

/// Splits a text into lines as `str::lines` does.
pub fn split_lines(text: &str) -> (r: Vec<String>)
    ensures
        views_of(r@) == lines_of(text@),
{
    let s = chars_of(text);
    let n = s.len();
    let mut out: Vec<String> = Vec::new();
    let mut start: usize = 0;
    while start < n
        invariant
            n == s@.len(),
            start <= n,
            views_of(out@) + lines_from(s@, start as int) == lines_of(s@),
        decreases n - start,
    {
        let mut j = start;
        while j < n && s[j] != '\n'
            invariant
                n == s@.len(),
                start <= j <= n,
                first_newline(s@, start as int) == first_newline(s@, j as int),
            decreases n - j,
        {
            j = j + 1;
        }
        let ghost before = views_of(out@);
        if j < n {
            let mut end = j;
            if end > start && s[end - 1] == '\r' {
                end = end - 1;
            }
            let line = sub_chars(&s, start, end);
            out.push(string_of(&line));
            proof {
                let raw = s@.subrange(start as int, j as int);
                if j > start && s@[j - 1] == '\r' {
                    assert(raw.last() == '\r');
                    assert(raw.drop_last() =~= s@.subrange(start as int, end as int));
                }
                assert(views_of(out@) =~= before.push(line@));
                assert(lines_from(s@, start as int) == seq![line@] + lines_from(s@, j + 1));
                assert(before.push(line@) + lines_from(s@, j + 1) =~= before + (seq![line@] + lines_from(s@, j + 1)));
            }
            start = j + 1;
        } else {
            let line = sub_chars(&s, start, n);
            out.push(string_of(&line));
            proof {
                assert(views_of(out@) =~= before.push(line@));
                assert(lines_from(s@, n as int) == Seq::<Seq<char>>::empty());
                assert(before.push(line@) =~= before + lines_from(s@, start as int));
            }
            start = n;
        }
    }
    assert(views_of(out@) + Seq::<Seq<char>>::empty() =~= views_of(out@));
    out
}

/// Why the Miniserver's log could not be shown.
#[derive(Debug)]
pub enum LogError {
    /// The reply says access is denied (401 or 403).
    AccessDenied,
    /// The reply is an XML error with this code.
    ErrorCode { code: String },
}

impl LogError {
    /// The error's message, as the command line prints it.
    pub open spec fn message(&self) -> Seq<char> {
        match self {
            LogError::AccessDenied => "Access denied. The Miniserver log requires admin privileges."@,
            LogError::ErrorCode { code } => "Miniserver returned error code "@ + code@,
        }
    }

    /// Renders the message.
    pub fn to_string(&self) -> (s: String)
        ensures
            s@ == self.message(),
    {
        let mut v: Vec<char> = Vec::new();
        match self {
            LogError::AccessDenied => push_str(&mut v, "Access denied. The Miniserver log requires admin privileges."),
            LogError::ErrorCode { code } => {
                push_str(&mut v, "Miniserver returned error code ");
                push_str(&mut v, code.as_str());
            },
        }
        string_of(&v)
    }
}

/// The first character that is not white space, if any.
pub open spec fn first_non_space(s: Seq<char>) -> Option<char>
    decreases s.len(),
{
    if s.len() == 0 {
        None
    } else if is_white_space(s[0]) {
        first_non_space(s.drop_first())
    } else {
        Some(s[0])
    }
}

fn starts_with_markup(s: &Vec<char>) -> (b: bool)
    ensures
        b == (first_non_space(s@) == Some('<')),
{
    let n = s.len();
    let mut i: usize = 0;
    assert(s@.skip(0) == s@);
    while i < n && white_space(s[i])
        invariant
            n == s@.len(),
            i <= n,
            first_non_space(s@) == first_non_space(s@.skip(i as int)),
        decreases n - i,
    {
        assert(s@.skip(i as int).drop_first() == s@.skip(i + 1));
        i = i + 1;
    }
    if i < n {
        assert(s@.skip(i as int)[0] == s@[i as int]);
        s[i] == '<'
    } else {
        assert(s@.skip(i as int).len() == 0);
        false
    }
}

/// What `lox log` shows for the log reply `log` and a line count: an
/// access error, an error code, or the last `count` lines.
pub open spec fn log_outcome(log: Seq<char>, count: nat) -> Result<Seq<Seq<char>>, LogError> {
    if contains_seq(log, "<errorcode>403</errorcode>"@) || contains_seq(log, "<errorcode>401</errorcode>"@) {
        Err(LogError::AccessDenied)
    } else if first_non_space(log) == Some('<') && contains_seq(log, "<errorcode>"@) {
        Err(LogError::ErrorCode { code: arbitrary() })
    } else {
        let all = lines_of(log);
        Ok(all.skip(if count >= all.len() { 0 } else { all.len() - count }))
    }
}

/// The lines of the Miniserver log to show: the last `count`, unless the
/// reply is an error.
pub fn log_tail(log: &str, count: usize) -> (r: Result<Vec<String>, LogError>)
    ensures
        match log_outcome(log@, count as nat) {
            Ok(lines) => r matches Ok(v) && views_of(v@) == lines,
            Err(LogError::AccessDenied) => r matches Err(LogError::AccessDenied),
            Err(LogError::ErrorCode { .. }) => r matches Err(LogError::ErrorCode { code })
                && code@ == (match xml_attr_value(log@, "errorcode"@) { Some(c) => c, None => "?"@ }),
        },
{
    let s = chars_of(log);
    let p403 = chars_of("<errorcode>403</errorcode>");
    let p401 = chars_of("<errorcode>401</errorcode>");
    if contains_chars(&s, &p403) || contains_chars(&s, &p401) {
        return Err(LogError::AccessDenied);
    }
    let tag = chars_of("<errorcode>");
    if starts_with_markup(&s) && contains_chars(&s, &tag) {
        let code = match xml_attr(log, "errorcode") {
            Some(c) => c,
            None => "?".to_owned(),
        };
        return Err(LogError::ErrorCode { code });
    }
    let all = split_lines(log);
    let ghost all_v = views_of(all@);
    let total = all.len();
    let first = if count >= total { 0 } else { total - count };
    let mut rest = all;
    let mut k: usize = 0;
    while k < first
        invariant
            first <= total,
            k <= first,
            views_of(rest@) == all_v.skip(k as int),
            all_v.len() == total,
        decreases first - k,
    {
        let ghost old_rest = rest@;
        assert(views_of(old_rest).len() == old_rest.len());
        rest.remove(0);
        assert forall|i: int| 0 <= i < rest@.len() implies views_of(rest@)[i] == all_v.skip(k + 1)[i] by {
            assert(rest@[i] == old_rest[i + 1]);
            assert(views_of(old_rest)[i + 1] == all_v.skip(k as int)[i + 1]);
        }
        assert(views_of(rest@) =~= all_v.skip(k + 1));
        k = k + 1;
    }
    Ok(rest)
}

/// The date and time parts of the status reply's `Modified` stamp: split at
/// the first space, or the whole stamp and `?` when it has none.
pub open spec fn date_time_parts(stamp: Seq<char>) -> (Seq<char>, Seq<char>) {
    if stamp.contains(' ') {
        let i = choose|i: int| 0 <= i < stamp.len() && stamp[i] == ' ' && forall|k: int| 0 <= k < i ==> stamp[k] != ' ';
        (stamp.subrange(0, i), stamp.subrange(i + 1, stamp.len() as int))
    } else {
        (stamp, "?"@)
    }
}

/// Splits a `Modified` stamp into date and time.
pub fn time_parts(stamp: &str) -> (r: (String, String))
    ensures
        r.0@ == date_time_parts(stamp@).0,
        r.1@ == date_time_parts(stamp@).1,
{
    let s = chars_of(stamp);
    let n = s.len();
    let mut i: usize = 0;
    while i < n && s[i] != ' '
        invariant
            n == s@.len(),
            i <= n,
            forall|k: int| 0 <= k < i ==> s@[k] != ' ',
        decreases n - i,
    {
        i = i + 1;
    }
    if i < n {
        let date = sub_chars(&s, 0, i);
        let time = sub_chars(&s, i + 1, n);
        proof {
            assert(s@.contains(' ')) by { assert(s@[i as int] == ' '); }
            let c = choose|c: int| 0 <= c < s@.len() && s@[c] == ' ' && forall|k: int| 0 <= k < c ==> s@[k] != ' ';
            assert(c == i as int) by {
                if c < i { } else if c > i { assert(s@[i as int] == ' '); }
            }
        }
        (string_of(&date), string_of(&time))
    } else {
        (stamp.to_owned(), "?".to_owned())
    }
}

/// The value of a string of decimal digits.
pub open spec fn digits_value(s: Seq<char>) -> nat
    decreases s.len(),
{
    if s.len() == 0 {
        0
    } else {
        digits_value(s.drop_last()) * 10 + ((s.last() as u32) - 48) as nat
    }
}

/// Every character is an ASCII digit.
pub open spec fn all_digits(s: Seq<char>) -> bool {
    forall|i: int| 0 <= i < s.len() ==> '0' <= #[trigger] s[i] && s[i] <= '9'
}

/// What std's `from_str` for an unsigned integer type with maximum `max`
/// gives: an optional `+`, then at least one digit, and a value in range.
pub open spec fn parsed_unsigned(s: Seq<char>, max: nat) -> Option<nat> {
    let body = if s.len() > 0 && s[0] == '+' { s.drop_first() } else { s };
    if body.len() > 0 && all_digits(body) && digits_value(body) <= max {
        Some(digits_value(body))
    } else {
        None
    }
}

proof fn lemma_digits_grow(s: Seq<char>, k: int)
    requires
        all_digits(s),
        0 <= k <= s.len(),
    ensures
        digits_value(s.take(k)) <= digits_value(s),
    decreases s.len() - k,
{
    if k < s.len() {
        lemma_digits_grow(s, k + 1);
        assert(s.take(k + 1).drop_last() == s.take(k));
    } else {
        assert(s.take(k) == s);
    }
}

/// Parses an unsigned decimal number no greater than `max`, as std's
/// `u32::from_str` / `u64::from_str` do for their maxima.
pub fn parse_unsigned(text: &str, max: u64) -> (r: Option<u64>)
    ensures
        match r {
            Some(v) => parsed_unsigned(text@, max as nat) == Some(v as nat),
            None => parsed_unsigned(text@, max as nat) is None,
        },
{
    let s = chars_of(text);
    let n = s.len();
    let start: usize = if n > 0 && s[0] == '+' { 1 } else { 0 };
    let ghost body = if s@.len() > 0 && s@[0] == '+' { s@.drop_first() } else { s@ };
    assert(body =~= s@.skip(start as int));
    if start == n {
        return None;
    }
    let mut acc: u64 = 0;
    let mut i = start;
    while i < n
        invariant
            n == s@.len(),
            s@ == text@,
            start <= i <= n,
            body == s@.skip(start as int),
            body == (if s@.len() > 0 && s@[0] == '+' { s@.drop_first() } else { s@ }),
            all_digits(body.take(i - start)),
            acc as nat == digits_value(body.take(i - start)),
            acc <= max,
        decreases n - i,
    {
        let c = s[i];
        assert(body[i - start] == c);
        if c < '0' || c > '9' {
            proof {
                let k = i - start;
                assert(!('0' <= body[k] && body[k] <= '9'));
                assert(!all_digits(body));
                assert(text@ == s@);
                assert(parsed_unsigned(text@, max as nat) is None);
            }
            return None;
        }
        let d = (c as u32 - 48) as u64;
        assert(body.take(i - start + 1).drop_last() == body.take(i - start));
        if d > max || acc > (max - d) / 10 {
            proof {
                assert(digits_value(body.take(i - start + 1)) == acc * 10 + d);
                if d <= max {
                    assert(acc * 10 + d > max) by (nonlinear_arith)
                        requires acc > (max - d) / 10, d <= max;
                }
                if all_digits(body) {
                    lemma_digits_grow(body, i - start + 1);
                }
            }
            return None;
        }
        assert(acc * 10 + d <= max) by (nonlinear_arith)
            requires acc <= (max - d) / 10, d <= 9, d <= max;
        acc = acc * 10 + d;
        assert(all_digits(body.take(i - start + 1)));
        i = i + 1;
    }
    assert(body.take(n - start) == body);
    Some(acc)
}

/// The firmware update check: the version the update server offers, if it
/// names one, and whether an update is available.
#[derive(Debug)]
pub struct UpdateStatus {
    pub new_version: Option<String>,
    pub update_available: bool,
}

/// `a` where it holds a value, else `b`.
pub open spec fn opt_or(a: Option<Seq<char>>, b: Option<Seq<char>>) -> Option<Seq<char>> {
    if a is Some { a } else { b }
}

/// The version the update server's reply offers: its `Firmware` attribute,
/// else `version`, else `Version` if that holds a `.`.
pub open spec fn offered_version(body: Seq<char>) -> Option<Seq<char>> {
    opt_or(xml_attr_value(body, "Firmware"@), opt_or(xml_attr_value(body, "version"@),
        match xml_attr_value(body, "Version"@) {
            Some(v) => if v.contains('.') { Some(v) } else { None },
            None => None,
        }))
}

/// Whether the reply announces an update for firmware `current`: its
/// `Version` (else `update`) attribute is neither `0` nor `current`, or the
/// offered version differs from `current`.
pub open spec fn update_announced(body: Seq<char>, current: Seq<char>) -> bool {
    let flag = match opt_or(xml_attr_value(body, "Version"@), xml_attr_value(body, "update"@)) {
        Some(v) => v != "0"@ && v != current,
        None => false,
    };
    flag || (match offered_version(body) { Some(v) => v != current, None => false })
}

fn opt_pick(a: Option<String>, b: Option<String>) -> (r: Option<String>)
    ensures
        crate::client::opt_view(r) == opt_or(crate::client::opt_view(a), crate::client::opt_view(b)),
{
    match a {
        Some(x) => Some(x),
        None => b,
    }
}

/// Reads the update server's reply for the installed firmware `current`.
pub fn update_status(body: &str, current: &str) -> (u: UpdateStatus)
    ensures
        crate::client::opt_view(u.new_version) == offered_version(body@),
        u.update_available == update_announced(body@, current@),
{
    let firmware = xml_attr(body, "Firmware");
    let lower = xml_attr(body, "version");
    let upper = xml_attr(body, "Version");
    let dotted = match &upper {
        Some(v) => {
            let c = chars_of(v.as_str());
            if crate::text::has_char(&c, '.') { Some(v.clone()) } else { None }
        },
        None => None,
    };
    let new_version = opt_pick(firmware, opt_pick(lower, dotted));
    let cur = chars_of(current);
    let flag_src = opt_pick(upper, xml_attr(body, "update"));
    let flag = match &flag_src {
        Some(v) => {
            let c = chars_of(v.as_str());
            !spells(&c, "0") && !chars_equal(&c, &cur)
        },
        None => false,
    };
    let differs = match &new_version {
        Some(v) => {
            let c = chars_of(v.as_str());
            !chars_equal(&c, &cur)
        },
        None => false,
    };
    UpdateStatus { new_version, update_available: flag || differs }
}

/// The update server's URL for a serial number and firmware version.
pub fn update_check_url(serial: &str, version: &str) -> (u: String)
    ensures
        u@ == "https://update.loxone.com/updatecheck.xml?serial="@ + serial@ + "&version="@ + version@,
{
    let mut v: Vec<char> = Vec::new();
    push_str(&mut v, "https://update.loxone.com/updatecheck.xml?serial=");
    push_str(&mut v, serial);
    push_str(&mut v, "&version=");
    push_str(&mut v, version);
    string_of(&v)
}

/// The last `/`-separated part of a path (all of it when it has no `/`).
pub open spec fn last_segment(path: Seq<char>) -> Seq<char> {
    match last_index_of(path, '/') {
        Some(i) => path.subrange(i + 1, path.len() as int),
        None => path,
    }
}

/// The local file name a download is saved under: the one given, else the
/// last part of the remote path.
pub fn download_name(path: &str, save_as: Option<&str>) -> (r: String)
    ensures
        r@ == (match save_as { Some(s) => s@, None => last_segment(path@) }),
{
    match save_as {
        Some(s) => s.to_owned(),
        None => {
            let v = chars_of(path);
            let n = v.len();
            proof {
                lemma_last_index_of(v@, '/');
            }
            match rfind_char(&v, '/') {
                Some(i) => {
                    let tail = sub_chars(&v, i + 1, n);
                    string_of(&tail)
                },
                None => path.to_owned(),
            }
        },
    }
}

/// An update is available whenever the reply offers a version other than
/// the installed one, and whenever its `Version` (else `update`) flag is
/// neither `0` nor the installed version; otherwise it is not.
pub proof fn law_update_available(body: Seq<char>, current: Seq<char>)
    ensures
        (offered_version(body) matches Some(v) && v != current) ==> update_announced(body, current),
        update_announced(body, current) <==> (
            (offered_version(body) matches Some(v) && v != current)
            || (match opt_or(xml_attr_value(body, "Version"@), xml_attr_value(body, "update"@)) {
                Some(f) => f != "0"@ && f != current,
                None => false,
            })),
        offered_version(body) == (if xml_attr_value(body, "Firmware"@) is Some {
            xml_attr_value(body, "Firmware"@)
        } else if xml_attr_value(body, "version"@) is Some {
            xml_attr_value(body, "version"@)
        } else {
            match xml_attr_value(body, "Version"@) {
                Some(v) => if v.contains('.') { Some(v) } else { None },
                None => None,
            }
        }),
{
}

} // verus!
