use vstd::prelude::*;

use crate::text::{
    chars_eq_str, chars_of, same_chars, str_eq, split_chars, parse_i64, push_str, push_chars, signed_decimal,
    signed_decimal_chars, replace_chars, decimal_chars, parse_u16, sub_chars, contains, decimal, has_char, lines, lines_of, parse_i64_spec, parse_u16_spec,
    replace_char, split_on, starts_with, starts_with_chars, string_of, trim, trim_chars, vviews, words,
    words_of, no_ws, lemma_words_push_ws, lemma_words_append_word, lemma_u16_decimal_roundtrip,
    lemma_decimal_no_ws, is_ws,
};

verus! {

/// The `adb` command-line tool: what the library decides around its runs.
/// Running the tool is left to the caller; these functions build the
/// arguments it takes and read what it prints.
pub struct Adb;

/// The next step of forwarding a port.
#[derive(Debug, PartialEq, Eq)]
pub enum ForwardStep {
    /// The forward is done, on this local port.
    Port(u16),
    /// List the device's forwards (`adb forward --list`) and decide again.
    ListForwards,
    /// The forward failed with this error.
    Fail(String),
}

/// The model of a forwarding step.
pub enum ForwardStepView {
    Port(u16),
    ListForwards,
    Fail(Seq<char>),
}

impl View for ForwardStep {
    type V = ForwardStepView;

    open spec fn view(&self) -> ForwardStepView {
        match self {
            ForwardStep::Port(p) => ForwardStepView::Port(*p),
            ForwardStep::ListForwards => ForwardStepView::ListForwards,
            ForwardStep::Fail(e) => ForwardStepView::Fail(e@),
        }
    }
}

/// The order in which `forward` finds its port (see `Adb::forward_next`).
pub open spec fn forward_next_spec(
    stdout: Seq<char>,
    stderr: Seq<char>,
    listed: Option<Seq<char>>,
    serial: Seq<char>,
    remote_port: u16,
) -> ForwardStepView {
    match printed_port(stdout, stderr) {
        Some(p) => ForwardStepView::Port(p),
        None => match listed {
            None => ForwardStepView::ListForwards,
            Some(list) => match last_forward_port(lines(list), serial, tcp_spec(remote_port)) {
                Some(p) => ForwardStepView::Port(p),
                None => ForwardStepView::Fail(
                    "Failed to determine forwarded port. stdout="@ + trim(stdout) + ", stderr="@ + trim(stderr),
                ),
            },
        },
    }
}

/// The kind of connection a serial names (`Adb::device_type`).
pub open spec fn device_type_spec(serial: Seq<char>) -> Seq<char> {
    if starts_with(serial, "emulator-"@) || starts_with(serial, "127.0.0.1:"@) {
        "emulator"@
    } else if serial.contains(':') {
        "wifi"@
    } else {
        "usb"@
    }
}

/// Line `i` of the output of `adb devices` reports `serial` as an attached
/// device: the header line is skipped, and the line's second word is `device`.
pub open spec fn lists_device(out: Seq<char>, i: int, serial: Seq<char>) -> bool {
    let ls = lines(out);
    let parts = words(trim(ls[i]));
    &&& 1 <= i < ls.len()
    &&& parts.len() >= 2
    &&& parts[1] == "device"@
    &&& parts[0] == serial
}

/// The serials that the output of `adb devices` reports as attached devices.
pub open spec fn listed_serial(out: Seq<char>, serial: Seq<char>) -> bool {
    exists|i: int| lists_device(out, i, serial)
}

/// One of the lines before line `n` reports `serial`.
pub open spec fn listed_before(out: Seq<char>, n: int, serial: Seq<char>) -> bool {
    exists|i: int| i < n && lists_device(out, i, serial)
}

/// One of `found` holds the characters `s`.
pub open spec fn holds_string(found: Seq<String>, s: Seq<char>) -> bool {
    exists|k: int| 0 <= k < found.len() && found[k]@ == s
}

/// The width and height that `wm size` reports, with 1080 by 1920 where it
/// cannot be read.
pub open spec fn screen_size_spec(out: Seq<char>) -> (i64, i64) {
    let pieces = split_on(out, ':');
    if pieces.len() >= 2 {
        let parts = split_on(trim(pieces[1]), 'x');
        if parts.len() == 2 {
            let w = match parse_i64_spec(trim(parts[0])) { Some(v) => v, None => 1080 };
            let h = match parse_i64_spec(trim(parts[1])) { Some(v) => v, None => 1920 };
            (w, h)
        } else {
            (1080, 1920)
        }
    } else {
        (1080, 1920)
    }
}

/// Text as `input text` takes it: backslashes doubled, spaces written `%s`,
/// double quotes escaped.
pub open spec fn escape_input_text(text: Seq<char>) -> Seq<char> {
    replace_char(replace_char(replace_char(text, '\\', "\\\\"@), ' ', "%s"@), '"', "\\\""@)
}

/// The Android key code for a key name; other names are passed on as they are.
pub open spec fn key_code_spec(name: Seq<char>) -> Seq<char> {
    if name == "home"@ { "KEYCODE_HOME"@ }
    else if name == "back"@ { "KEYCODE_BACK"@ }
    else if name == "enter"@ { "KEYCODE_ENTER"@ }
    else if name == "del"@ { "KEYCODE_DEL"@ }
    else if name == "forward_del"@ { "KEYCODE_FORWARD_DEL"@ }
    else if name == "tab"@ { "KEYCODE_TAB"@ }
    else if name == "menu"@ { "KEYCODE_MENU"@ }
    else if name == "power"@ { "KEYCODE_POWER"@ }
    else if name == "wakeup"@ { "KEYCODE_WAKEUP"@ }
    else if name == "dpad_up"@ { "KEYCODE_DPAD_UP"@ }
    else if name == "dpad_down"@ { "KEYCODE_DPAD_DOWN"@ }
    else if name == "dpad_left"@ { "KEYCODE_DPAD_LEFT"@ }
    else if name == "dpad_right"@ { "KEYCODE_DPAD_RIGHT"@ }
    else { name }
}

/// `tcp:<port>`, the way `adb forward` names a TCP port.
pub open spec fn tcp_spec(port: u16) -> Seq<char> {
    "tcp:"@ + decimal(port as nat)
}

/// The local port that one line of `adb forward --list` gives for a forward
/// of `serial` to `remote`: the line reads `serial tcp:LOCAL remote`.
pub open spec fn forward_entry_port(line: Seq<char>, serial: Seq<char>, remote: Seq<char>) -> Option<u16> {
    let parts = words(line);
    if parts.len() >= 3 && parts[0] == serial && parts[2] == remote && starts_with(parts[1], "tcp:"@) {
        parse_u16_spec(parts[1].subrange(4, parts[1].len() as int))
    } else {
        None
    }
}

/// The port of the last line of `ls` that gives one (the list is read from the
/// end).
pub open spec fn last_forward_port(ls: Seq<Seq<char>>, serial: Seq<char>, remote: Seq<char>) -> Option<u16>
    decreases ls.len(),
{
    if ls.len() == 0 {
        None
    } else {
        match forward_entry_port(ls.last(), serial, remote) {
            Some(p) => Some(p),
            None => last_forward_port(ls.drop_last(), serial, remote),
        }
    }
}

/// The port that `adb forward tcp:0 ...` printed: on stdout, else on stderr.
pub open spec fn printed_port(stdout: Seq<char>, stderr: Seq<char>) -> Option<u16> {
    match parse_u16_spec(trim(stdout)) {
        Some(p) => Some(p),
        None => parse_u16_spec(trim(stderr)),
    }
}

impl Adb {
    /// Whether a serial names an emulator, a device over WiFi or one over USB.
    pub fn device_type(serial: &str) -> (r: &'static str)
        ensures
            r@ == device_type_spec(serial@),
    {
        let cs = chars_of(serial);
        let emu = chars_of("emulator-");
        let local = chars_of("127.0.0.1:");
        if starts_with_chars(&cs, &emu) || starts_with_chars(&cs, &local) {
            "emulator"
        } else if has_char(&cs, ':') {
            "wifi"
        } else {
            "usb"
        }
    }

    /// Whether a serial is a USB serial rather than a WiFi `IP:PORT`.
    pub fn is_usb_serial(serial: &str) -> (r: bool)
        ensures
            r == !serial@.contains(':'),
    {
        let cs = chars_of(serial);
        !has_char(&cs, ':')
    }

    /// The serials that the output of `adb devices` lists as attached devices,
    /// each once.
    pub fn devices_from_output(stdout: &str) -> (r: Vec<String>)
        ensures
            forall|i: int, j: int| 0 <= i < j < r@.len() ==> r@[i]@ != r@[j]@,
            forall|s: Seq<char>| #[trigger] holds_string(r@, s) <==> listed_serial(stdout@, s),
    {
        let cs = chars_of(stdout);
        let ls = lines_of(&cs);
        let ghost out = stdout@;
        let mut found: Vec<String> = Vec::new();
        if ls.len() == 0 {
            assert forall|s: Seq<char>| #[trigger] holds_string(found@, s) <==> listed_serial(out, s) by {
                assert forall|i: int| !lists_device(out, i, s) by {}
            }
            return found;
        }
        let mut idx: usize = 1;
        while idx < ls.len()
            invariant
                1 <= idx <= ls@.len(),
                vviews(ls@) == lines(out),
                forall|i: int, j: int| 0 <= i < j < found@.len() ==> found@[i]@ != found@[j]@,
                forall|s: Seq<char>| #[trigger] holds_string(found@, s) <==> listed_before(out, idx as int, s),
            decreases ls@.len() - idx,
        {
            let line = trim_chars(&ls[idx]);
            assert(ls@[idx as int]@ == lines(out)[idx as int]);
            let parts = words_of(&line);
            let ghost before = found@;
            if parts.len() >= 2 && chars_eq_str(&parts[1], "device") {
                let serial = string_of(&parts[0]);
                let mut seen = false;
                let mut k: usize = 0;
                while k < found.len()
                    invariant
                        k <= found@.len(),
                        seen == (exists|m: int| 0 <= m < k && found@[m]@ == serial@),
                    decreases found@.len() - k,
                {
                    if same_string(&found[k], &serial) {
                        seen = true;
                    }
                    k = k + 1;
                }
                assert(lists_device(out, idx as int, serial@)) by {
                    assert(vviews(parts@)[0] == parts@[0]@);
                    assert(vviews(parts@)[1] == parts@[1]@);
                }
                if !seen {
                    found.push(serial);
                }
                assert forall|s: Seq<char>| #[trigger] holds_string(found@, s) <==> listed_before(out, idx + 1, s) by {
                    if listed_before(out, idx + 1, s) {
                        let i = choose|i: int| i < idx + 1 && lists_device(out, i, s);
                        if i == idx {
                            assert(s == serial@) by {
                                assert(vviews(parts@)[0] == parts@[0]@);
                            }
                            if seen {
                                let m = choose|m: int| 0 <= m < before.len() && before[m]@ == serial@;
                                assert(found@[m] == before[m]);
                            } else {
                                assert(found@[found@.len() - 1]@ == s);
                            }
                        } else {
                            assert(listed_before(out, idx as int, s));
                            assert(holds_string(before, s));
                            let m = choose|m: int| 0 <= m < before.len() && before[m]@ == s;
                            assert(found@[m] == before[m]);
                        }
                        assert(holds_string(found@, s));
                    }
                    if holds_string(found@, s) {
                        let k = choose|k: int| 0 <= k < found@.len() && found@[k]@ == s;
                        if k < before.len() {
                            assert(holds_string(before, s));
                            assert(listed_before(out, idx as int, s));
                        } else {
                            assert(s == serial@);
                            assert(lists_device(out, idx as int, s));
                        }
                    }
                }
            } else {
                assert forall|s: Seq<char>| !lists_device(out, idx as int, s) by {
                    if parts@.len() >= 2 {
                        assert(vviews(parts@)[1] == parts@[1]@);
                    }
                }
                assert forall|s: Seq<char>| #[trigger] holds_string(found@, s) <==> listed_before(out, idx + 1, s) by {
                    if exists|i: int| i < idx + 1 && lists_device(out, i, s) {
                        let i = choose|i: int| i < idx + 1 && lists_device(out, i, s);
                        assert(i < idx);
                    }
                }
            }
            idx = idx + 1;
        }
        assert forall|s: Seq<char>| #[trigger] holds_string(found@, s) <==> listed_serial(out, s) by {
            if listed_serial(out, s) {
                let i = choose|i: int| lists_device(out, i, s);
                assert(i < idx);
            }
        }
        found
    }

    /// The screen size that the output of `wm size` gives
    /// (`Physical size: 1080x2400`), with 1080 by 1920 for what cannot be read.
    pub fn screen_size_from_output(output: &str) -> (r: (i64, i64))
        ensures
            r == screen_size_spec(output@),
    {
        let cs = chars_of(output);
        let pieces = split_chars(&cs, ':');
        if pieces.len() >= 2 {
            assert(vviews(pieces@)[1] == pieces@[1]@);
            let size = trim_chars(&pieces[1]);
            let parts = split_chars(&size, 'x');
            if parts.len() == 2 {
                assert(vviews(parts@)[0] == parts@[0]@);
                assert(vviews(parts@)[1] == parts@[1]@);
                let wc = trim_chars(&parts[0]);
                let hc = trim_chars(&parts[1]);
                let w = match parse_i64(&wc) {
                    Some(v) => v,
                    None => 1080,
                };
                let h = match parse_i64(&hc) {
                    Some(v) => v,
                    None => 1920,
                };
                return (w, h);
            }
        }
        (1080, 1920)
    }

    /// The Android key code for a key name such as `home` or `back`; other
    /// names are passed on as they are.
    pub fn key_code(name: &str) -> (r: String)
        ensures
            r@ == key_code_spec(name@),
    {
        let cs = chars_of(name);
        let code = if chars_eq_str(&cs, "home") { "KEYCODE_HOME" }
        else if chars_eq_str(&cs, "back") { "KEYCODE_BACK" }
        else if chars_eq_str(&cs, "enter") { "KEYCODE_ENTER" }
        else if chars_eq_str(&cs, "del") { "KEYCODE_DEL" }
        else if chars_eq_str(&cs, "forward_del") { "KEYCODE_FORWARD_DEL" }
        else if chars_eq_str(&cs, "tab") { "KEYCODE_TAB" }
        else if chars_eq_str(&cs, "menu") { "KEYCODE_MENU" }
        else if chars_eq_str(&cs, "power") { "KEYCODE_POWER" }
        else if chars_eq_str(&cs, "wakeup") { "KEYCODE_WAKEUP" }
        else if chars_eq_str(&cs, "dpad_up") { "KEYCODE_DPAD_UP" }
        else if chars_eq_str(&cs, "dpad_down") { "KEYCODE_DPAD_DOWN" }
        else if chars_eq_str(&cs, "dpad_left") { "KEYCODE_DPAD_LEFT" }
        else if chars_eq_str(&cs, "dpad_right") { "KEYCODE_DPAD_RIGHT" }
        else { name };
        code.to_string()
    }

    /// The shell command that reads a device property.
    pub fn getprop_command(prop: &str) -> (r: String)
        ensures
            r@ == "getprop "@ + prop@,
    {
        let mut out: Vec<char> = Vec::new();
        push_str(&mut out, "getprop ");
        push_str(&mut out, prop);
        string_of(&out)
    }

    /// The shell command that taps at `(x, y)`.
    pub fn tap_command(x: i32, y: i32) -> (r: String)
        ensures
            r@ == "input tap "@ + signed_decimal(x as int) + " "@ + signed_decimal(y as int),
    {
        let mut out: Vec<char> = Vec::new();
        push_str(&mut out, "input tap ");
        push_chars(&mut out, &signed_decimal_chars(x as i64));
        push_str(&mut out, " ");
        push_chars(&mut out, &signed_decimal_chars(y as i64));
        string_of(&out)
    }

    /// The shell command that swipes from `(x1, y1)` to `(x2, y2)` in
    /// `duration_ms` milliseconds.
    pub fn swipe_command(x1: i32, y1: i32, x2: i32, y2: i32, duration_ms: i32) -> (r: String)
        ensures
            r@ == "input swipe "@ + signed_decimal(x1 as int) + " "@ + signed_decimal(y1 as int) + " "@
                + signed_decimal(x2 as int) + " "@ + signed_decimal(y2 as int) + " "@ + signed_decimal(
                duration_ms as int,
            ),
    {
        let mut out: Vec<char> = Vec::new();
        push_str(&mut out, "input swipe ");
        push_chars(&mut out, &signed_decimal_chars(x1 as i64));
        push_str(&mut out, " ");
        push_chars(&mut out, &signed_decimal_chars(y1 as i64));
        push_str(&mut out, " ");
        push_chars(&mut out, &signed_decimal_chars(x2 as i64));
        push_str(&mut out, " ");
        push_chars(&mut out, &signed_decimal_chars(y2 as i64));
        push_str(&mut out, " ");
        push_chars(&mut out, &signed_decimal_chars(duration_ms as i64));
        string_of(&out)
    }

    /// The shell command that types `text`, escaped for the device shell.
    pub fn text_command(text: &str) -> (r: String)
        ensures
            r@ == "input text \""@ + escape_input_text(text@) + "\""@,
    {
        let cs = chars_of(text);
        let a = replace_chars(&cs, '\\', "\\\\");
        let b = replace_chars(&a, ' ', "%s");
        let c = replace_chars(&b, '"', "\\\"");
        let mut out: Vec<char> = Vec::new();
        push_str(&mut out, "input text \"");
        push_chars(&mut out, &c);
        push_str(&mut out, "\"");
        string_of(&out)
    }

    /// The shell command that sends a key event, for a key name or code.
    pub fn keyevent_command(keycode: &str) -> (r: String)
        ensures
            r@ == "input keyevent "@ + key_code_spec(keycode@),
    {
        let code = Self::key_code(keycode);
        let mut out: Vec<char> = Vec::new();
        push_str(&mut out, "input keyevent ");
        push_str(&mut out, code.as_str());
        string_of(&out)
    }

    /// `tcp:<port>`, the way `adb forward` names a TCP port.
    pub fn tcp_target(port: u16) -> (r: String)
        ensures
            r@ == tcp_spec(port),
    {
        let mut out: Vec<char> = Vec::new();
        push_str(&mut out, "tcp:");
        push_chars(&mut out, &decimal_chars(port as u64));
        string_of(&out)
    }

    /// `localabstract:<name>`, the way `adb forward` names an abstract socket.
    pub fn abstract_target(name: &str) -> (r: String)
        ensures
            r@ == "localabstract:"@ + name@,
    {
        let mut out: Vec<char> = Vec::new();
        push_str(&mut out, "localabstract:");
        push_str(&mut out, name);
        string_of(&out)
    }

    /// The local port that `adb forward tcp:0 ...` printed, on its standard
    /// output or else on its standard error.
    pub fn printed_port(stdout: &str, stderr: &str) -> (r: Option<u16>)
        ensures
            r == printed_port(stdout@, stderr@),
    {
        let out = trim_chars(&chars_of(stdout));
        match parse_u16(&out) {
            Some(p) => Some(p),
            None => {
                let err = trim_chars(&chars_of(stderr));
                parse_u16(&err)
            },
        }
    }

    /// The local port of the last forward of `serial` to TCP port
    /// `remote_port` in the output of `adb forward --list`.
    pub fn port_from_forward_list(list: &str, serial: &str, remote_port: u16) -> (r: Option<u16>)
        ensures
            r == last_forward_port(lines(list@), serial@, tcp_spec(remote_port)),
    {
        let ls = lines_of(&chars_of(list));
        let serial_cs = chars_of(serial);
        let target = Self::tcp_target(remote_port);
        let target_cs = chars_of(target.as_str());
        let tcp = chars_of("tcp:");
        let ghost all = vviews(ls@);
        let mut n: usize = ls.len();
        assert(all.take(n as int) =~= all);
        proof {
            reveal_strlit("tcp:");
        }
        while n > 0
            invariant
                n <= ls@.len(),
                all == vviews(ls@),
                all == lines(list@),
                serial_cs@ == serial@,
                target_cs@ == tcp_spec(remote_port),
                tcp@ == "tcp:"@,
                tcp@.len() == 4,
                last_forward_port(all, serial@, tcp_spec(remote_port))
                    == last_forward_port(all.take(n as int), serial@, tcp_spec(remote_port)),
            decreases n,
        {
            let parts = words_of(&ls[n - 1]);
            let ghost line = all[n - 1];
            assert(ls@[n - 1]@ == line);
            assert(all.take(n as int).last() == line);
            assert(all.take(n as int).drop_last() =~= all.take(n - 1));
            if parts.len() >= 3 && same_chars(&parts[0], &serial_cs) && same_chars(&parts[2], &target_cs)
                && starts_with_chars(&parts[1], &tcp) {
                assert(vviews(parts@)[0] == parts@[0]@);
                assert(vviews(parts@)[1] == parts@[1]@);
                assert(vviews(parts@)[2] == parts@[2]@);
                assert(tcp@.len() == 4);
                let port_cs = sub_chars(&parts[1], 4, parts[1].len());
                if let Some(p) = parse_u16(&port_cs) {
                    return Some(p);
                }
            } else {
                proof {
                    if parts@.len() >= 3 {
                        assert(vviews(parts@)[0] == parts@[0]@);
                        assert(vviews(parts@)[1] == parts@[1]@);
                        assert(vviews(parts@)[2] == parts@[2]@);
                    }
                }
            }
            n = n - 1;
        }
        None
    }

    /// What `forward` does next once `adb forward tcp:0 ..` has printed
    /// `stdout` and `stderr`, and, if the forwards were listed since, what
    /// `adb forward --list` printed: a port printed by the forward wins; else
    /// the forwards are listed; else the last listed forward of `serial` to
    /// `remote_port` gives the port; else the forward fails.
    pub fn forward_next(
        stdout: &str,
        stderr: &str,
        listed: Option<&str>,
        serial: &str,
        remote_port: u16,
    ) -> (r: ForwardStep)
        ensures
            r@ == forward_next_spec(stdout@, stderr@, match listed {
                Some(l) => Some(l@),
                None => None,
            }, serial@, remote_port),
    {
        if let Some(p) = Self::printed_port(stdout, stderr) {
            return ForwardStep::Port(p);
        }
        match listed {
            None => ForwardStep::ListForwards,
            Some(list) => match Self::port_from_forward_list(list, serial, remote_port) {
                Some(p) => ForwardStep::Port(p),
                None => ForwardStep::Fail(Self::forward_error(stdout, stderr)),
            },
        }
    }

    /// The error when the port that `adb forward` assigned cannot be found.
    pub fn forward_error(stdout: &str, stderr: &str) -> (r: String)
        ensures
            r@ == "Failed to determine forwarded port. stdout="@ + trim(stdout@) + ", stderr="@ + trim(stderr@),
    {
        let mut out: Vec<char> = Vec::new();
        push_str(&mut out, "Failed to determine forwarded port. stdout=");
        push_chars(&mut out, &trim_chars(&chars_of(stdout)));
        push_str(&mut out, ", stderr=");
        push_chars(&mut out, &trim_chars(&chars_of(stderr)));
        string_of(&out)
    }

    /// The error when the port forwarded to an abstract socket cannot be found.
    pub fn forward_abstract_error(name: &str, stdout: &str, stderr: &str) -> (r: String)
        ensures
            r@ == "Failed to determine forwarded port for abstract:"@ + name@ + ". stdout="@ + trim(stdout@)
                + ", stderr="@ + trim(stderr@),
    {
        let mut out: Vec<char> = Vec::new();
        push_str(&mut out, "Failed to determine forwarded port for abstract:");
        push_str(&mut out, name);
        push_str(&mut out, ". stdout=");
        push_chars(&mut out, &trim_chars(&chars_of(stdout)));
        push_str(&mut out, ", stderr=");
        push_chars(&mut out, &trim_chars(&chars_of(stderr)));
        string_of(&out)
    }

    /// What `adb shell` gives back: its standard output, trimmed.
    pub fn shell_output(stdout: &str) -> (r: String)
        ensures
            r@ == trim(stdout@),
    {
        string_of(&trim_chars(&chars_of(stdout)))
    }

    /// What `adb connect` gives back: its standard output, then its standard
    /// error.
    pub fn connect_output(stdout: &str, stderr: &str) -> (r: String)
        ensures
            r@ == stdout@ + stderr@,
    {
        let mut out: Vec<char> = Vec::new();
        push_str(&mut out, stdout);
        push_str(&mut out, stderr);
        string_of(&out)
    }

    /// What `adb push` gives back: on success its standard error (where it
    /// reports the transfer), else an error that names the exit status and
    /// both outputs.
    pub fn push_outcome(success: bool, status: &str, stdout: &str, stderr: &str) -> (r: Result<String, String>)
        ensures
            success ==> (r matches Ok(s) && s@ == stderr@),
            !success ==> (r matches Err(e) && e@ == "adb push failed (exit "@ + status@ + "): "@ + stderr@ + " "@
                + stdout@),
    {
        if success {
            Ok(string_of(&chars_of(stderr)))
        } else {
            let mut out: Vec<char> = Vec::new();
            push_str(&mut out, "adb push failed (exit ");
            push_str(&mut out, status);
            push_str(&mut out, "): ");
            push_str(&mut out, stderr);
            push_str(&mut out, " ");
            push_str(&mut out, stdout);
            Err(string_of(&out))
        }
    }

    /// What `adb exec-out screencap -p` gives back: the PNG bytes it printed,
    /// or an error when it failed or printed nothing.
    pub fn screencap_outcome(success: bool, stdout: Vec<u8>, stderr: &str) -> (r: Result<Vec<u8>, String>)
        ensures
            !success ==> (r matches Err(e) && e@ == "adb screencap error: "@ + stderr@),
            success && stdout@.len() == 0 ==> (r matches Err(e) && e@ == "adb screencap returned empty data"@),
            success && stdout@.len() > 0 ==> (r matches Ok(data) && data@ == stdout@),
    {
        if !success {
            let mut out: Vec<char> = Vec::new();
            push_str(&mut out, "adb screencap error: ");
            push_str(&mut out, stderr);
            return Err(string_of(&out));
        }
        if stdout.len() == 0 {
            return Err(string_of(&chars_of("adb screencap returned empty data")));
        }
        Ok(stdout)
    }
}

/// A serial classed as `usb` has no `:` and so is a USB serial; one classed
/// as `wifi` has one and is not. (An emulator may be either: `emulator-5554`
/// has no `:`, `127.0.0.1:5555` has one.)
pub proof fn lemma_usb_serial_agrees_with_type(serial: Seq<char>)
    ensures
        device_type_spec(serial) == "usb"@ ==> !serial.contains(':'),
        device_type_spec(serial) == "wifi"@ ==> serial.contains(':'),
{
    reveal_strlit("usb");
    reveal_strlit("wifi");
    reveal_strlit("emulator");
    assert("usb"@.len() == 3 && "wifi"@.len() == 4 && "emulator"@.len() == 8);
}

/// A line that `adb forward --list` writes for a forward of `serial` from
/// local port `p` to `remote` (`serial tcp:p remote`) is read back as port
/// `p`: the library writes and reads ports the way adb prints them.
pub proof fn lemma_forward_entry_readback(serial: Seq<char>, p: u16, remote: Seq<char>)
    requires
        serial.len() > 0,
        no_ws(serial),
        remote.len() > 0,
        no_ws(remote),
    ensures
        forward_entry_port(serial + " "@ + tcp_spec(p) + " "@ + remote, serial, remote) == Some(p),
{
    reveal_strlit(" ");
    reveal_strlit("tcp:");
    let sp = " "@;
    let port = tcp_spec(p);
    lemma_u16_decimal_roundtrip(p);
    lemma_decimal_no_ws(p as nat);
    assert(no_ws(port)) by {
        assert forall|i: int| 0 <= i < port.len() implies !is_ws(#[trigger] port[i]) by {
            if i >= 4 {
                assert(port[i] == decimal(p as nat)[i - 4]);
            }
        }
    }
    assert(is_ws(sp[0]));
    assert(Seq::<char>::empty() + serial =~= serial);
    lemma_words_append_word(Seq::empty(), serial);
    assert(words(Seq::<char>::empty()) =~= Seq::<Seq<char>>::empty());
    let a = serial + sp;
    assert(a =~= serial.push(' '));
    lemma_words_push_ws(serial, ' ');
    lemma_words_append_word(a, port);
    let b = a + port + sp;
    assert(b =~= (a + port).push(' '));
    lemma_words_push_ws(a + port, ' ');
    lemma_words_append_word(b, remote);
    let line = serial + sp + port + sp + remote;
    assert(line =~= b + remote);
    let parts = words(line);
    assert(parts =~= seq![serial, port, remote]);
    assert(starts_with(port, "tcp:"@)) by {
        assert(port.subrange(0, 4) =~= "tcp:"@);
    }
    assert(port.subrange(4, port.len() as int) =~= decimal(p as nat));
}

/// Whether two strings hold the same characters.
fn same_string(a: &String, b: &String) -> (r: bool)
    ensures
        r == (a@ == b@),
{
    str_eq(a.as_str(), b.as_str())
}

/// A capital letter for a small one; any other character as it is.
pub open spec fn upper_char(c: char) -> char {
    if 'a' <= c && c <= 'z' {
        ((c as u32) - 32) as char
    } else {
        c
    }
}

/// `s` with its ASCII small letters made capital.
pub open spec fn ascii_upper(s: Seq<char>) -> Seq<char> {
    Seq::new(s.len(), |i: int| upper_char(s[i]))
}

/// Each key name that the inspector sends stands for the Android key of the
/// same name: its key code is `KEYCODE_` followed by the name in capitals
/// (`del` is `KEYCODE_DEL`, backspace; `forward_del` is
/// `KEYCODE_FORWARD_DEL`), and the command sends exactly that code.
pub proof fn lemma_key_names_map_to_their_keys(name: Seq<char>)
    requires
        ({
            ||| name == "home"@
            ||| name == "back"@
            ||| name == "enter"@
            ||| name == "del"@
            ||| name == "forward_del"@
            ||| name == "tab"@
            ||| name == "menu"@
            ||| name == "power"@
            ||| name == "wakeup"@
            ||| name == "dpad_up"@
            ||| name == "dpad_down"@
            ||| name == "dpad_left"@
            ||| name == "dpad_right"@
        }),
    ensures
        key_code_spec(name) == "KEYCODE_"@ + ascii_upper(name),
{
    reveal_strlit("KEYCODE_");
    reveal_strlit("home");
    reveal_strlit("KEYCODE_HOME");
    reveal_strlit("back");
    reveal_strlit("KEYCODE_BACK");
    reveal_strlit("enter");
    reveal_strlit("KEYCODE_ENTER");
    reveal_strlit("del");
    reveal_strlit("KEYCODE_DEL");
    reveal_strlit("forward_del");
    reveal_strlit("KEYCODE_FORWARD_DEL");
    reveal_strlit("tab");
    reveal_strlit("KEYCODE_TAB");
    reveal_strlit("menu");
    reveal_strlit("KEYCODE_MENU");
    reveal_strlit("power");
    reveal_strlit("KEYCODE_POWER");
    reveal_strlit("wakeup");
    reveal_strlit("KEYCODE_WAKEUP");
    reveal_strlit("dpad_up");
    reveal_strlit("KEYCODE_DPAD_UP");
    reveal_strlit("dpad_down");
    reveal_strlit("KEYCODE_DPAD_DOWN");
    reveal_strlit("dpad_left");
    reveal_strlit("KEYCODE_DPAD_LEFT");
    reveal_strlit("dpad_right");
    reveal_strlit("KEYCODE_DPAD_RIGHT");
    if name == "home"@ {
        assert("KEYCODE_"@ + ascii_upper(name) =~= "KEYCODE_HOME"@);
    }
    if name == "back"@ {
        assert("KEYCODE_"@ + ascii_upper(name) =~= "KEYCODE_BACK"@);
    }
    if name == "enter"@ {
        assert("KEYCODE_"@ + ascii_upper(name) =~= "KEYCODE_ENTER"@);
    }
    if name == "del"@ {
        assert("KEYCODE_"@ + ascii_upper(name) =~= "KEYCODE_DEL"@);
    }
    if name == "forward_del"@ {
        assert("KEYCODE_"@ + ascii_upper(name) =~= "KEYCODE_FORWARD_DEL"@);
    }
    if name == "tab"@ {
        assert("KEYCODE_"@ + ascii_upper(name) =~= "KEYCODE_TAB"@);
    }
    if name == "menu"@ {
        assert("KEYCODE_"@ + ascii_upper(name) =~= "KEYCODE_MENU"@);
    }
    if name == "power"@ {
        assert("KEYCODE_"@ + ascii_upper(name) =~= "KEYCODE_POWER"@);
    }
    if name == "wakeup"@ {
        assert("KEYCODE_"@ + ascii_upper(name) =~= "KEYCODE_WAKEUP"@);
    }
    if name == "dpad_up"@ {
        assert("KEYCODE_"@ + ascii_upper(name) =~= "KEYCODE_DPAD_UP"@);
    }
    if name == "dpad_down"@ {
        assert("KEYCODE_"@ + ascii_upper(name) =~= "KEYCODE_DPAD_DOWN"@);
    }
    if name == "dpad_left"@ {
        assert("KEYCODE_"@ + ascii_upper(name) =~= "KEYCODE_DPAD_LEFT"@);
    }
    if name == "dpad_right"@ {
        assert("KEYCODE_"@ + ascii_upper(name) =~= "KEYCODE_DPAD_RIGHT"@);
    }
}

/// A serial is listed only when its line of `adb devices` (after the header
/// line) gives it as its first word and exactly `device` as its state: a
/// device that is `unauthorized`, `offline`, in `recovery` or any other state
/// is not listed.
pub proof fn lemma_listed_only_in_device_state(out: Seq<char>, serial: Seq<char>)
    ensures
        listed_serial(out, serial) <==> exists|i: int|
            #![trigger lines(out)[i]]
            {
                &&& 1 <= i < lines(out).len()
                &&& words(trim(lines(out)[i])).len() >= 2
                &&& words(trim(lines(out)[i]))[0] == serial
                &&& words(trim(lines(out)[i]))[1] == "device"@
            },
{
    if listed_serial(out, serial) {
        let i = choose|i: int| lists_device(out, i, serial);
        assert(lists_device(out, i, serial));
        assert(lines(out)[i] == lines(out)[i]);
    }
    if exists|i: int|
        #![trigger lines(out)[i]]
        {
            &&& 1 <= i < lines(out).len()
            &&& words(trim(lines(out)[i])).len() >= 2
            &&& words(trim(lines(out)[i]))[0] == serial
            &&& words(trim(lines(out)[i]))[1] == "device"@
        } {
        let i = choose|i: int|
            #![trigger lines(out)[i]]
            {
                &&& 1 <= i < lines(out).len()
                &&& words(trim(lines(out)[i])).len() >= 2
                &&& words(trim(lines(out)[i]))[0] == serial
                &&& words(trim(lines(out)[i]))[1] == "device"@
            };
        assert(lists_device(out, i, serial));
    }
}

} // verus!
