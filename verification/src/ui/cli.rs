//! The command line of the ship control interface: a typed line becomes an
//! event for the game, or output text. `sp_line_output` states every line the
//! interpreter prints, and the event mapping is stated per command.

use vstd::prelude::*;

use crate::game::data::{Broadcast, EntityId, Vec2};
use crate::text::{
    chars_to_string, parse_u16, sp_all_digits, sp_decimal, sp_parsed, sp_texts, str_chars,
    str_eq, u64_to_dec,
};

verus! {

/// A status message shown to the player.
#[derive(Debug, PartialEq, Eq)]
pub enum Message {
    Silent,
    Notice(String),
    Error(String),
}

/// What the client knows this frame, as the command line reads it.
pub struct Frame {
    pub broadcasts: Vec<Broadcast>,
    pub ship_id: Option<EntityId>,
    pub position: Vec2,
    pub velocity: Vec2,
}

/// What a typed command asks the game to do.
#[derive(Debug, PartialEq, Eq)]
pub enum UiEvent {
    StartBroadcast(String),
    StopBroadcast,
    /// The maneuver direction, in whole degrees.
    ScheduleManeuver(u16),
    Quit,
}

/// Where the first space of a line stands; the line's length when it has
/// none.
pub open spec fn sp_first_space(cs: Seq<char>) -> int
    decreases cs.len(),
{
    if cs.len() == 0 {
        0
    } else if cs[0] == ' ' {
        0
    } else {
        1 + sp_first_space(cs.drop_first())
    }
}

/// The command of a line: everything before its first space.
pub open spec fn sp_command(cs: Seq<char>) -> Seq<char> {
    cs.take(sp_first_space(cs))
}

/// The arguments of a line: everything after its first space; empty without
/// one.
pub open spec fn sp_args(cs: Seq<char>) -> Seq<char> {
    if sp_first_space(cs) < cs.len() {
        cs.skip(sp_first_space(cs) + 1)
    } else {
        Seq::empty()
    }
}

/// The first space is where the scan says it is.
proof fn lemma_first_space_at(cs: Seq<char>, k: int)
    requires
        0 <= k <= cs.len(),
        forall|i: int| 0 <= i < k ==> cs[i] != ' ',
        k < cs.len() ==> cs[k] == ' ',
    ensures
        sp_first_space(cs) == k,
    decreases k,
{
    if cs.len() == 0 {
    } else if k == 0 {
    } else {
        assert(cs[0] != ' ');
        assert(forall|i: int| 0 <= i < k - 1 ==> #[trigger] cs.drop_first()[i] == cs[i + 1]);
        lemma_first_space_at(cs.drop_first(), k - 1);
    }
}

/// Whether a run of digits parses as a 16-bit number.
pub open spec fn sp_parse_ok(args: Seq<char>) -> bool {
    args.len() > 0 && sp_all_digits(args) && sp_parsed(args) <= u16::MAX
}

/// A number rendered in decimal, `0` included.
pub open spec fn sp_dec_u64(n: int) -> Seq<char> {
    if n == 0 {
        seq!['0']
    } else {
        sp_decimal(n)
    }
}

/// A signed number rendered in decimal.
pub open spec fn sp_dec_i64(v: int) -> Seq<char> {
    if v >= 0 {
        sp_dec_u64(v)
    } else {
        seq!['-'] + sp_dec_u64(-v)
    }
}

/// One listed broadcast: its sender, a separator, its text.
pub open spec fn sp_broadcast_line(b: Broadcast) -> Seq<char> {
    sp_dec_u64(b.sender as int) + ": "@ + b.message@
}

/// Every line one command appends to the scrollback: the echo of the line
/// itself, then what the command prints.
pub open spec fn sp_line_output(cs: Seq<char>, frame: Frame) -> Seq<Seq<char>> {
    let cmd = sp_command(cs);
    let args = sp_args(cs);
    seq!["> "@ + cs] + (if cmd == "list-broadcasts"@ {
        seq![sp_dec_u64(frame.broadcasts@.len() as int) + " broadcasts"@]
            + frame.broadcasts@.map_values(|b: Broadcast| sp_broadcast_line(b))
    } else if cmd == "start-broadcast"@ || cmd == "stop-broadcast"@ {
        Seq::empty()
    } else if cmd == "nav-data"@ {
        seq![
            "Position: "@ + sp_dec_i64(frame.position.x as int) + ", "@ + sp_dec_i64(
                frame.position.y as int,
            ) + "; Velocity: "@ + sp_dec_i64(frame.velocity.x as int) + ", "@ + sp_dec_i64(
                frame.velocity.y as int,
            ),
        ]
    } else if cmd == "comm-data"@ {
        match frame.ship_id {
            Option::Some(id) => seq!["Your Comm Id: "@ + sp_dec_u64(id as int)],
            Option::None => seq!["Comm Id is currently unknown"@],
        }
    } else if cmd == "schedule-maneuver"@ {
        if sp_parse_ok(args) {
            Seq::empty()
        } else {
            seq!["Error parsing arguments"@]
        }
    } else {
        seq!["Unknown command: "@ + cmd]
    })
}

/// The scrollback cap: only the newest lines stay.
pub open spec fn sp_cap(s: Seq<Seq<char>>) -> Seq<Seq<char>> {
    if s.len() <= 22 {
        s
    } else {
        s.skip(s.len() - 22)
    }
}

/// Pushing a string extends the text views by its view.
proof fn lemma_texts_push(s: Seq<String>, t: String)
    ensures
        sp_texts(s.push(t)) == sp_texts(s).push(t@),
{
    assert(sp_texts(s.push(t)) =~= sp_texts(s).push(t@));
}

/// Dropping the oldest line drops the oldest view.
proof fn lemma_texts_skip(s: Seq<String>, d: int)
    requires
        0 <= d <= s.len(),
    ensures
        sp_texts(s.skip(d)) == sp_texts(s).skip(d),
{
    assert(sp_texts(s.skip(d)) =~= sp_texts(s).skip(d));
}

/// The command line: an input buffer and a scrollback of output lines.
pub struct Cli {
    pub input_buffer: Vec<char>,
    pub text: Vec<String>,
    pub height: u16,
}

impl Cli {
    pub fn new() -> (r: Cli)
        ensures
            r.input_buffer@.len() == 0,
            r.text@.len() == 2,
            r.text@[0]@ == "VNDF Ship Control System"@,
            r.text@[1]@ == "Enter command"@,
            r.height == 24,
    {
        let mut text: Vec<String> = Vec::new();
        text.push(chars_to_string(str_chars("VNDF Ship Control System")));
        text.push(chars_to_string(str_chars("Enter command")));
        Cli { input_buffer: Vec::new(), text, height: 24 }
    }

    /// The output lines, oldest first.
    pub fn text(&self) -> (r: &Vec<String>)
        ensures
            r == &self.text,
    {
        &self.text
    }

    /// What has been typed so far.
    pub fn input(&self) -> (r: &Vec<char>)
        ensures
            r == &self.input_buffer,
    {
        &self.input_buffer
    }

    /// Handles one typed character.
    pub fn push_input(&mut self, c: char)
        ensures
            final(self).input_buffer@ == old(self).input_buffer@.push(c),
            final(self).text@ == old(self).text@,
    {
        self.input_buffer.push(c);
    }

    /// Handles backspace.
    pub fn pop_input(&mut self)
        ensures
            old(self).input_buffer@.len() == 0 ==> final(self).input_buffer@ == old(
                self,
            ).input_buffer@,
            old(self).input_buffer@.len() > 0 ==> final(self).input_buffer@ == old(
                self,
            ).input_buffer@.drop_last(),
            final(self).text@ == old(self).text@,
    {
        let _ = self.input_buffer.pop();
    }

    /// Executes one typed line: the scrollback gains exactly the lines
    /// `sp_line_output` names (echo first), capped to the newest twenty-two,
    /// and the command decides the one event pushed, if any.
    pub fn handle_line(&mut self, events: &mut Vec<UiEvent>, line: &str, frame: &Frame)
        ensures
            final(self).input_buffer@ == old(self).input_buffer@,
            final(self).height == old(self).height,
            sp_texts(final(self).text@) == sp_cap(
                sp_texts(old(self).text@) + sp_line_output(line@, *frame),
            ),
            ({
                let cmd = sp_command(line@);
                let args = sp_args(line@);
                &&& final(events)@.take(old(events)@.len() as int) == old(events)@
                &&& (cmd == "start-broadcast"@ ==> final(events)@.len() == old(events)@.len() + 1
                    && (final(events)@.last() matches UiEvent::StartBroadcast(t) && t@ == args))
                &&& (cmd == "stop-broadcast"@ ==> final(events)@.len() == old(events)@.len() + 1
                    && final(events)@.last() is StopBroadcast)
                &&& (cmd == "schedule-maneuver"@ && sp_parse_ok(args) ==> final(events)@.len()
                    == old(events)@.len() + 1 && (final(events)@.last()
                    matches UiEvent::ScheduleManeuver(d) && d == sp_parsed(args)))
                &&& (!(cmd == "start-broadcast"@ || cmd == "stop-broadcast"@ || (cmd
                    == "schedule-maneuver"@ && sp_parse_ok(args))) ==> final(events)@ == old(
                    events,
                )@)
            }),
    {
        let ghost out = sp_line_output(line@, *frame);
        let echo: Vec<char> = str_chars("> ");
        let mut line_chars = str_chars(line);
        let mut echo_all = echo;
        echo_all.append(&mut line_chars);
        let ghost t0 = self.text@;
        self.text.push(chars_to_string(echo_all));
        proof {
            lemma_texts_push(t0, self.text@.last());
            assert(sp_texts(self.text@) == sp_texts(t0).push("> "@ + line@));
        }
        let parts = split_command(line);
        let (command, args) = parts;
        if str_eq(command.as_str(), "list-broadcasts") {
            proof {
                reveal_strlit("list-broadcasts");
                reveal_strlit("start-broadcast");
                reveal_strlit("stop-broadcast");
                reveal_strlit("schedule-maneuver");
                assert("list-broadcasts"@[0] == 'l' && "start-broadcast"@[0] == 's');
                assert(sp_command(line@) != "start-broadcast"@);
                assert("list-broadcasts"@[0] == 'l' && "stop-broadcast"@[0] == 's');
                assert(sp_command(line@) != "stop-broadcast"@);
                assert("list-broadcasts"@.len() == 15 && "schedule-maneuver"@.len() == 17);
                assert(sp_command(line@) != "schedule-maneuver"@);
            }
            let mut count_line = u64_to_dec(self.broadcast_count(frame));
            let mut suffix = str_chars(" broadcasts");
            count_line.append(&mut suffix);
            let ghost t1 = self.text@;
            self.text.push(chars_to_string(count_line));
            proof {
                lemma_texts_push(t1, self.text@.last());
                assert(self.text@.last()@ == sp_dec_u64(frame.broadcasts@.len() as int)
                    + " broadcasts"@);
            }
            let ghost base = sp_texts(self.text@);
            let ghost rows_spec = frame.broadcasts@.map_values(
                |b: Broadcast| sp_broadcast_line(b),
            );
            let n = frame.broadcasts.len();
            let mut k: usize = 0;
            proof {
                assert(base + rows_spec.take(0) =~= base);
            }
            while k < n
                invariant
                    k <= n,
                    n == frame.broadcasts@.len(),
                    rows_spec == frame.broadcasts@.map_values(
                        |b: Broadcast| sp_broadcast_line(b),
                    ),
                    sp_texts(self.text@) == base + rows_spec.take(k as int),
                    self.input_buffer@ == old(self).input_buffer@,
                    self.height == old(self).height,
                decreases n - k,
            {
                let b = &frame.broadcasts[k];
                let mut row = u64_to_dec(b.sender);
                let mut sep = str_chars(": ");
                row.append(&mut sep);
                let mut msg = str_chars(b.message.as_str());
                row.append(&mut msg);
                let ghost tk = self.text@;
                self.text.push(chars_to_string(row));
                k += 1;
                proof {
                    lemma_texts_push(tk, self.text@.last());
                    assert(self.text@.last()@ == sp_broadcast_line(
                        frame.broadcasts@[k as int - 1],
                    ));
                    assert(rows_spec[k as int - 1] == sp_broadcast_line(
                        frame.broadcasts@[k as int - 1],
                    ));
                    assert(rows_spec.take(k as int - 1).push(rows_spec[k as int - 1])
                        =~= rows_spec.take(k as int));
                    assert(sp_texts(self.text@) =~= base + rows_spec.take(k as int));
                }
            }
            proof {
                assert(rows_spec.take(n as int) =~= rows_spec);
                assert(sp_texts(self.text@) =~= sp_texts(old(self).text@) + out);
            }
        } else if str_eq(command.as_str(), "start-broadcast") {
            proof {
                reveal_strlit("start-broadcast");
                reveal_strlit("stop-broadcast");
                reveal_strlit("schedule-maneuver");
                assert("start-broadcast"@.len() == 15 && "stop-broadcast"@.len() == 14);
                assert(sp_command(line@) != "stop-broadcast"@);
                assert("schedule-maneuver"@.len() == 17);
                assert(sp_command(line@) != "schedule-maneuver"@);
            }
            events.push(UiEvent::StartBroadcast(args));
            proof {
                assert(sp_texts(self.text@) =~= sp_texts(old(self).text@) + out);
            }
        } else if str_eq(command.as_str(), "stop-broadcast") {
            proof {
                reveal_strlit("stop-broadcast");
                reveal_strlit("schedule-maneuver");
                assert("stop-broadcast"@.len() == 14 && "schedule-maneuver"@.len() == 17);
                assert(sp_command(line@) != "schedule-maneuver"@);
            }
            events.push(UiEvent::StopBroadcast);
            proof {
                assert(sp_texts(self.text@) =~= sp_texts(old(self).text@) + out);
            }
        } else if str_eq(command.as_str(), "nav-data") {
            proof {
                reveal_strlit("nav-data");
                reveal_strlit("schedule-maneuver");
                assert("nav-data"@.len() == 8 && "schedule-maneuver"@.len() == 17);
                assert(sp_command(line@) != "schedule-maneuver"@);
            }
            let mut row = str_chars("Position: ");
            let mut px = dec_i64(frame.position.x);
            row.append(&mut px);
            let mut sep1 = str_chars(", ");
            row.append(&mut sep1);
            let mut py = dec_i64(frame.position.y);
            row.append(&mut py);
            let mut mid = str_chars("; Velocity: ");
            row.append(&mut mid);
            let mut vx = dec_i64(frame.velocity.x);
            row.append(&mut vx);
            let mut sep2 = str_chars(", ");
            row.append(&mut sep2);
            let mut vy = dec_i64(frame.velocity.y);
            row.append(&mut vy);
            let ghost t1 = self.text@;
            self.text.push(chars_to_string(row));
            proof {
                lemma_texts_push(t1, self.text@.last());
                assert(sp_texts(self.text@) =~= sp_texts(old(self).text@) + out);
            }
        } else if str_eq(command.as_str(), "comm-data") {
            proof {
                reveal_strlit("comm-data");
                reveal_strlit("schedule-maneuver");
                assert("comm-data"@.len() == 9 && "schedule-maneuver"@.len() == 17);
                assert(sp_command(line@) != "schedule-maneuver"@);
            }
            match frame.ship_id {
                Some(id) => {
                    let mut row = str_chars("Your Comm Id: ");
                    let mut idc = u64_to_dec(id);
                    row.append(&mut idc);
                    let ghost t1 = self.text@;
                    self.text.push(chars_to_string(row));
                    proof {
                        lemma_texts_push(t1, self.text@.last());
                        assert(sp_texts(self.text@) =~= sp_texts(old(self).text@) + out);
                    }
                },
                None => {
                    let ghost t1 = self.text@;
                    self.text.push(
                        chars_to_string(str_chars("Comm Id is currently unknown")),
                    );
                    proof {
                        lemma_texts_push(t1, self.text@.last());
                        assert(sp_texts(self.text@) =~= sp_texts(old(self).text@) + out);
                    }
                },
            }
        } else if str_eq(command.as_str(), "schedule-maneuver") {
            let digits = str_chars(args.as_str());
            match parse_u16(&digits) {
                Some(direction_deg) => {
                    events.push(UiEvent::ScheduleManeuver(direction_deg));
                    proof {
                        assert(sp_texts(self.text@) =~= sp_texts(old(self).text@) + out);
                    }
                },
                None => {
                    let ghost t1 = self.text@;
                    self.text.push(chars_to_string(str_chars("Error parsing arguments")));
                    proof {
                        lemma_texts_push(t1, self.text@.last());
                        assert(sp_texts(self.text@) =~= sp_texts(old(self).text@) + out);
                    }
                },
            }
        } else {
            let mut row = str_chars("Unknown command: ");
            let mut cmd = str_chars(command.as_str());
            row.append(&mut cmd);
            let ghost t1 = self.text@;
            self.text.push(chars_to_string(row));
            proof {
                lemma_texts_push(t1, self.text@.last());
                assert(sp_texts(self.text@) =~= sp_texts(old(self).text@) + out);
            }
        }
        let ghost full = sp_texts(old(self).text@) + out;
        proof {
            assert(sp_texts(self.text@) == full);
            assert(full.skip(0) =~= full);
        }
        while self.text.len() > 22
            invariant
                self.text@.len() <= full.len(),
                sp_texts(self.text@) == full.skip(full.len() - self.text@.len()),
                self.text@.len() >= 22 || self.text@.len() == full.len(),
                self.input_buffer@ == old(self).input_buffer@,
                self.height == old(self).height,
            decreases self.text@.len(),
        {
            let ghost tb = self.text@;
            let _ = self.text.remove(0);
            proof {
                assert(self.text@ =~= tb.skip(1));
                lemma_texts_skip(tb, 1);
                assert(sp_texts(tb).skip(1) =~= full.skip(full.len() - tb.len() + 1));
            }
        }
        proof {
            if self.text@.len() == full.len() {
                assert(full.skip(0) =~= full);
                assert(sp_texts(self.text@) == full);
                assert(full.len() <= 22);
            } else {
                assert(self.text@.len() == 22);
            }
            assert(sp_texts(self.text@) == sp_cap(full));
        }
    }

    /// How many broadcasts the frame carries.
    fn broadcast_count(&self, frame: &Frame) -> (r: u64)
        ensures
            r as int == frame.broadcasts@.len(),
    {
        let n = frame.broadcasts.len() as u64;
        n
    }
}

/// A signed coordinate in decimal.
fn dec_i64(v: i64) -> (r: Vec<char>)
    ensures
        r@ == sp_dec_i64(v as int),
{
    if v >= 0 {
        u64_to_dec(v as u64)
    } else {
        let mut r: Vec<char> = Vec::new();
        r.push('-');
        let below: i64 = -(v + 1);
        let mut mag = u64_to_dec((below as u64) + 1);
        r.append(&mut mag);
        proof {
            assert((below as u64) + 1 == -(v as int));
            assert(r@ =~= sp_dec_i64(v as int));
        }
        r
    }
}

/// Splits a line at its first space into the command and its arguments.
fn split_command(line: &str) -> (r: (String, String))
    ensures
        r.0@ == sp_command(line@),
        r.1@ == sp_args(line@),
{
    let cs = str_chars(line);
    let n = cs.len();
    let mut k: usize = 0;
    while k < n
        invariant
            k <= n,
            n == cs@.len(),
            cs@ == line@,
            forall|i: int| 0 <= i < k ==> cs@[i] != ' ',
        decreases n - k,
    {
        if cs[k] == ' ' {
            proof {
                lemma_first_space_at(cs@, k as int);
            }
            let mut head: Vec<char> = Vec::new();
            let mut i: usize = 0;
            while i < k
                invariant
                    i <= k,
                    k < n,
                    n == cs@.len(),
                    cs@ == line@,
                    head@ =~= cs@.take(i as int),
                decreases k - i,
            {
                let c = cs[i];
                head.push(c);
                i += 1;
                proof {
                    assert(head@ =~= cs@.take(i as int));
                }
            }
            let mut tail: Vec<char> = Vec::new();
            let mut j: usize = k + 1;
            while j < n
                invariant
                    k + 1 <= j <= n,
                    k < n,
                    n == cs@.len(),
                    cs@ == line@,
                    tail@ =~= cs@.subrange(k as int + 1, j as int),
                decreases n - j,
            {
                let c = cs[j];
                tail.push(c);
                j += 1;
                proof {
                    assert(tail@ =~= cs@.subrange(k as int + 1, j as int));
                }
            }
            proof {
                assert(tail@ =~= cs@.skip(k as int + 1));
            }
            return (chars_to_string(head), chars_to_string(tail));
        }
        k += 1;
    }
    proof {
        lemma_first_space_at(cs@, n as int);
        assert(cs@.take(n as int) =~= cs@);
        assert(sp_args(line@) =~= Seq::<char>::empty());
    }
    (chars_to_string(clone_chars_local(&cs)), chars_to_string(Vec::new()))
}

fn clone_chars_local(v: &Vec<char>) -> (r: Vec<char>)
    ensures
        r@ == v@,
{
    crate::ui::widgets::clone_chars(v)
}

} // verus!
