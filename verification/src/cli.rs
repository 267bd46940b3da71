//! The IOS command line of routers and switches: the modes a command runs in
//! and how a block of configuration is cleaned before it is typed.
use vstd::prelude::*;
use vstd::string::StringExecFns;

use crate::activity::{squeeze, squeeze_chars};
use crate::error::{cat3, PtError};
use crate::text::{
    chars_of, contains, is_one_of, lower_seq, lowercase_ascii, string_of, text_contains, trim,
    trim_text, views,
};

verus! {

#[derive(Debug, Clone, Default)]
pub struct CliRequest {
    /// Device name exactly as shown by `list_devices`.
    pub device: String,
    /// One IOS command, for example `show ip interface brief`.
    pub command: String,
    /// Mode to run the command in. Defaults to `enable`.
    pub mode: CliMode,
}

/// The IOS mode a command is typed in.
#[derive(Debug, Clone, Copy, Default, PartialEq, Eq, Structural)]
pub enum CliMode {
    User,
    #[default]
    Enable,
    Global,
    /// Whatever mode the console is in.
    Current,
}

/// The mode names Packet Tracer's `enterCommand` takes.
pub open spec fn mode_name(mode: CliMode) -> Seq<char> {
    match mode {
        CliMode::User => "user"@,
        CliMode::Enable => "enable"@,
        CliMode::Global => "global"@,
        CliMode::Current => ""@,
    }
}

impl CliMode {
    /// The mode as Packet Tracer names it; the current mode is sent blank.
    pub fn as_packet_tracer(self) -> (s: &'static str)
        ensures
            s@ == mode_name(self),
    {
        match self {
            CliMode::User => "user",
            CliMode::Enable => "enable",
            CliMode::Global => "global",
            CliMode::Current => "",
        }
    }
}

#[derive(Debug, Clone, Default)]
pub struct ConfigureIosRequest {
    /// Router or switch name.
    pub device: String,
    /// Configuration commands in order; a leading `enable` or `configure
    /// terminal` and a trailing `end` are handled for you.
    pub commands: Vec<String>,
    /// Run `write memory` afterwards so the configuration survives a reload.
    pub save: bool,
}

/// The device and command of a one-command request, trimmed; neither may be blank.
pub fn command_target(device: &str, command: &str) -> (r: Result<(String, String), PtError>)
    ensures
        (trim(device@).len() == 0 || trim(command@).len() == 0) ==> (r matches Err(
            PtError::InvalidInput(m),
        ) && m@ == "device and command are required"@),
        !(trim(device@).len() == 0 || trim(command@).len() == 0) ==> (r matches Ok((d, c)) && d@
            == trim(device@) && c@ == trim(command@)),
{
    let device = trim_text(device);
    let command = trim_text(command);
    if device.as_str().is_empty() || command.as_str().is_empty() {
        return Err(PtError::InvalidInput("device and command are required".to_owned()));
    }
    Ok((device, command))
}

/// The commands that switch into privileged or configuration mode, which a
/// configuration block may start with.
pub open spec fn is_mode_switch(command: Seq<char>) -> bool {
    let c = lower_seq(command);
    ||| c == "enable"@
    ||| c == "en"@
    ||| c == "configure terminal"@
    ||| c == "config terminal"@
    ||| c == "conf terminal"@
    ||| c == "configure t"@
    ||| c == "config t"@
    ||| c == "conf t"@
}

/// The command that leaves configuration mode, which a block may end with.
pub open spec fn is_leave(command: Seq<char>) -> bool {
    lower_seq(command) == "end"@
}

/// The commands with their spacing collapsed, blank ones left out.
pub open spec fn squeezed_commands(commands: Seq<Seq<char>>) -> Seq<Seq<char>>
    decreases commands.len(),
{
    if commands.len() == 0 {
        Seq::empty()
    } else {
        let rest = squeezed_commands(commands.drop_last());
        let c = squeeze(commands.last());
        if c.len() > 0 {
            rest.push(c)
        } else {
            rest
        }
    }
}

pub open spec fn without_leading_switches(commands: Seq<Seq<char>>) -> Seq<Seq<char>>
    decreases commands.len(),
{
    if commands.len() > 0 && is_mode_switch(commands[0]) {
        without_leading_switches(commands.drop_first())
    } else {
        commands
    }
}

pub open spec fn without_trailing_leave(commands: Seq<Seq<char>>) -> Seq<Seq<char>>
    decreases commands.len(),
{
    if commands.len() > 0 && is_leave(commands.last()) {
        without_trailing_leave(commands.drop_last())
    } else {
        commands
    }
}

/// A configuration block as it is typed: spacing collapsed, blank lines,
/// leading mode switches and trailing `end`s left out.
pub open spec fn normalized_commands(commands: Seq<Seq<char>>) -> Seq<Seq<char>> {
    without_trailing_leave(without_leading_switches(squeezed_commands(commands)))
}

proof fn lemma_squeezed_front(c: Seq<char>, rest: Seq<Seq<char>>)
    ensures
        squeezed_commands(seq![c] + rest) == (if squeeze(c).len() > 0 {
            seq![squeeze(c)]
        } else {
            Seq::<Seq<char>>::empty()
        }) + squeezed_commands(rest),
    decreases rest.len(),
{
    let head = if squeeze(c).len() > 0 {
        seq![squeeze(c)]
    } else {
        Seq::<Seq<char>>::empty()
    };
    if rest.len() == 0 {
        assert(seq![c] + rest =~= seq![c]);
        assert(seq![c].drop_last() =~= Seq::<Seq<char>>::empty());
        assert(squeezed_commands(Seq::<Seq<char>>::empty()) == Seq::<Seq<char>>::empty());
        assert(Seq::<Seq<char>>::empty().push(squeeze(c)) =~= seq![squeeze(c)]);
        assert(head + Seq::<Seq<char>>::empty() =~= head);
    } else {
        lemma_squeezed_front(c, rest.drop_last());
        assert((seq![c] + rest).drop_last() =~= seq![c] + rest.drop_last());
        assert((seq![c] + rest).last() == rest.last());
        let head = if squeeze(c).len() > 0 {
            seq![squeeze(c)]
        } else {
            Seq::<Seq<char>>::empty()
        };
        let sl = squeeze(rest.last());
        if sl.len() > 0 {
            assert(head + squeezed_commands(rest.drop_last()).push(sl) =~= (head
                + squeezed_commands(rest.drop_last())).push(sl));
        }
    }
}

/// A configuration block may start with any of the mode switches `enable`,
/// `en`, `configure terminal`, `config terminal`, `conf terminal`,
/// `configure t`, `config t` and `conf t`, in any ASCII case and spacing:
/// such a leading command is dropped and the rest of the block is typed as
/// if it had not been there.
pub proof fn lemma_leading_mode_switch_dropped(w: Seq<char>, rest: Seq<Seq<char>>)
    requires
        lower_seq(squeeze(w)) == "enable"@ || lower_seq(squeeze(w)) == "en"@ || lower_seq(squeeze(w)) == "configure terminal"@ || lower_seq(squeeze(w)) == "config terminal"@ || lower_seq(squeeze(w)) == "conf terminal"@ || lower_seq(squeeze(w)) == "configure t"@ || lower_seq(squeeze(w)) == "config t"@ || lower_seq(squeeze(w)) == "conf t"@,
    ensures
        normalized_commands(seq![w] + rest) == normalized_commands(rest),
{
    reveal_strlit("enable");
    reveal_strlit("en");
    reveal_strlit("configure terminal");
    reveal_strlit("config terminal");
    reveal_strlit("conf terminal");
    reveal_strlit("configure t");
    reveal_strlit("config t");
    reveal_strlit("conf t");
    lemma_squeezed_front(w, rest);
    if squeeze(w).len() == 0 {
        assert(lower_seq(squeeze(w)) =~= Seq::<char>::empty());
    }
    let sq = squeezed_commands(rest);
    assert((seq![squeeze(w)] + sq).drop_first() =~= sq);
    assert((seq![squeeze(w)] + sq)[0] == squeeze(w));
}

fn mode_switch(command: &String) -> (r: bool)
    ensures
        r == is_mode_switch(command@),
{
    let c = lowercase_ascii(&chars_of(command.as_str()));
    let switches = [
        "enable",
        "en",
        "configure terminal",
        "config terminal",
        "conf terminal",
        "configure t",
        "config t",
        "conf t",
    ];
    let found = is_one_of(&c, &switches);
    proof {
        let names = seq![
            "enable"@,
            "en"@,
            "configure terminal"@,
            "config terminal"@,
            "conf terminal"@,
            "configure t"@,
            "config t"@,
            "conf t"@,
        ];
        assert(forall|i: int| 0 <= i < 8 ==> switches@[i]@ == names[i]);
        if is_mode_switch(command@) {
            let k = choose|k: int| 0 <= k < 8 && c@ == names[k];
            assert(c@ == switches@[k]@);
        }
    }
    found
}

fn leave(command: &String) -> (r: bool)
    ensures
        r == is_leave(command@),
{
    let c = lowercase_ascii(&chars_of(command.as_str()));
    crate::text::eq_chars(&c, &chars_of("end"))
}

/// Cleans a configuration block before it is typed.
pub fn normalize(commands: &[String]) -> (r: Vec<String>)
    ensures
        views(r@) == normalized_commands(views(commands@)),
{
    let mut squeezed: Vec<String> = Vec::new();
    let mut i: usize = 0;
    while i < commands.len()
        invariant
            i <= commands@.len(),
            views(squeezed@) == squeezed_commands(views(commands@.take(i as int))),
        decreases commands.len() - i,
    {
        let c = squeeze_chars(&chars_of(commands[i].as_str()));
        assert(views(commands@.take(i + 1)).drop_last() =~= views(commands@.take(i as int)));
        assert(views(commands@.take(i + 1)).last() == commands@[i as int]@);
        if c.len() > 0 {
            squeezed.push(string_of(&c));
            assert(views(squeezed@) =~= squeezed_commands(views(commands@.take(i as int))).push(
                c@,
            ));
        }
        i += 1;
    }
    assert(commands@.take(i as int) =~= commands@);
    let ghost all = views(squeezed@);
    let mut start: usize = 0;
    assert(all.skip(0) =~= all);
    while start < squeezed.len() && mode_switch(&squeezed[start])
        invariant
            start <= squeezed@.len(),
            all == views(squeezed@),
            without_leading_switches(all) == without_leading_switches(all.skip(start as int)),
        decreases squeezed.len() - start,
    {
        assert(all.skip(start as int).drop_first() =~= all.skip(start + 1));
        start += 1;
    }
    let mut end: usize = squeezed.len();
    let ghost kept = all.skip(start as int);
    assert(kept.take(kept.len() as int) =~= kept);
    while end > start && leave(&squeezed[end - 1])
        invariant
            start <= end <= squeezed@.len(),
            all == views(squeezed@),
            kept == all.skip(start as int),
            without_trailing_leave(kept) == without_trailing_leave(kept.take(end - start)),
        decreases end,
    {
        assert(kept.take(end - start).drop_last() =~= kept.take(end - start - 1));
        end -= 1;
    }
    let mut r: Vec<String> = Vec::new();
    let mut j = start;
    while j < end
        invariant
            start <= j <= end <= squeezed@.len(),
            all == views(squeezed@),
            views(r@) == all.subrange(start as int, j as int),
        decreases end - j,
    {
        let ghost before = r@;
        let s = squeezed[j].clone();
        assert(s@ == all[j as int]);
        r.push(s);
        assert(views(r@) =~= views(before).push(s@));
        j += 1;
        assert(views(r@) =~= all.subrange(start as int, j as int));
    }
    assert(kept.take(end - start) =~= all.subrange(start as int, end as int));
    r
}

/// Command output as reported: without surrounding whitespace.
pub fn tidy(output: &str) -> (r: String)
    ensures
        r@ == trim(output@),
{
    trim_text(output)
}

/// Packet Tracer's status code of a command IOS accepted.
pub const STATUS_OK: i64 = 0;

/// What IOS answered to one command.
#[derive(Debug, Clone, PartialEq, Eq)]
pub struct CliResult {
    /// Packet Tracer's command status code.
    pub status: i64,
    pub output: String,
}

/// One command of a configuration block and IOS's answer.
#[derive(Debug, Clone, PartialEq, Eq)]
pub struct CommandOutcome {
    pub command: String,
    /// Packet Tracer's command status code.
    pub status: i64,
    pub output: String,
}

/// The answer of `configure_ios`.
#[derive(Debug, Clone, PartialEq, Eq)]
pub struct ConfigureIosResult {
    pub device: String,
    /// Every command was accepted.
    pub completed: bool,
    /// How many commands IOS accepted.
    pub applied: usize,
    /// How many commands the block had after cleaning.
    pub total: usize,
    /// `write memory` ran and IOS confirmed it.
    pub saved: bool,
    pub results: Vec<CommandOutcome>,
}

/// Explains a failed `enterCommand`: a missing object is the device, and a
/// refused method means the device has no IOS console.
pub fn explain_enter(error: PtError, device: &str) -> (r: PtError)
    ensures
        error is NotFound ==> (r matches PtError::NotFound(m) && m@ == "device `"@ + device@
            + "`"@),
        (error matches PtError::Rejected(reason) && contains(reason@, "enterCommand"@)) ==> (
        r matches PtError::Rejected(m) && m@ == error.text() + "; `"@ + device@
            + "` has no IOS console, use run_host_command for PCs and servers"@),
        !(error is NotFound) && !(error matches PtError::Rejected(reason) && contains(
            reason@,
            "enterCommand"@,
        )) ==> r == error,
{
    match error {
        PtError::NotFound(_) => PtError::NotFound(cat3("device `", device, "`")),
        PtError::Rejected(reason) => {
            if text_contains(reason.as_str(), "enterCommand") {
                let mut m = reason;
                m.append("; `");
                m.append(device);
                m.append("` has no IOS console, use run_host_command for PCs and servers");
                PtError::Rejected(m)
            } else {
                PtError::Rejected(reason)
            }
        },
        other => other,
    }
}

/// The device and cleaned commands of a configuration block, or why there
/// is nothing to type.
pub fn configure_block(request: &ConfigureIosRequest) -> (r: Result<(String, Vec<String>), PtError>)
    ensures
        trim(request.device@).len() == 0 ==> (r matches Err(PtError::InvalidInput(m)) && m@
            == "device is required"@),
        trim(request.device@).len() > 0 && normalized_commands(views(request.commands@)).len()
            == 0 ==> (r matches Err(PtError::InvalidInput(m)) && m@
            == "give at least one configuration command"@),
        trim(request.device@).len() > 0 && normalized_commands(views(request.commands@)).len()
            > 0 ==> (r matches Ok((d, c)) && d@ == trim(request.device@) && views(c@)
            == normalized_commands(views(request.commands@))),
{
    let device = trim_text(request.device.as_str());
    if device.as_str().is_empty() {
        return Err(PtError::InvalidInput("device is required".to_owned()));
    }
    let commands = normalize(request.commands.as_slice());
    if commands.len() == 0 {
        return Err(PtError::InvalidInput("give at least one configuration command".to_owned()));
    }
    Ok((device, commands))
}

/// The mode a command of a block is typed in: the first enters global
/// configuration, the rest follow the prompt.
pub fn command_mode(index: usize) -> (r: CliMode)
    ensures
        index == 0 ==> r == CliMode::Global,
        index > 0 ==> r == CliMode::Current,
{
    if index == 0 {
        CliMode::Global
    } else {
        CliMode::Current
    }
}

/// A command's outcome as reported: its output without surrounding
/// whitespace.
pub fn outcome_of(command: String, reply: &CliResult) -> (r: CommandOutcome)
    ensures
        r.command == command,
        r.status == reply.status,
        r.output@ == trim(reply.output@),
{
    CommandOutcome { command, status: reply.status, output: tidy(reply.output.as_str()) }
}

/// How many outcomes IOS accepted.
pub open spec fn accepted_count(results: Seq<CommandOutcome>) -> nat
    decreases results.len(),
{
    if results.len() == 0 {
        0
    } else {
        accepted_count(results.drop_last()) + if results.last().status == STATUS_OK {
            1nat
        } else {
            0nat
        }
    }
}

/// The answer of a configuration block: the device, how many of the `total`
/// commands IOS accepted, whether that is all of them, and whether the
/// configuration was saved.
pub fn configure_result(device: String, total: usize, results: Vec<CommandOutcome>, saved: bool) -> (r:
    ConfigureIosResult)
    ensures
        r.device == device,
        r.total == total,
        r.applied == accepted_count(results@),
        r.completed == (accepted_count(results@) == total),
        r.saved == saved,
        r.results == results,
{
    let mut applied: usize = 0;
    let mut i: usize = 0;
    while i < results.len()
        invariant
            i <= results@.len(),
            applied == accepted_count(results@.take(i as int)),
            applied <= i,
        decreases results.len() - i,
    {
        assert(results@.take(i + 1).drop_last() =~= results@.take(i as int));
        if results[i].status == STATUS_OK {
            applied += 1;
        }
        i += 1;
    }
    assert(results@.take(i as int) =~= results@);
    ConfigureIosResult { device, completed: applied == total, applied, total, saved, results }
}

/// Whether `write memory` took: IOS accepted it and printed `[OK]`.
pub fn write_saved(reply: &CliResult) -> (r: bool)
    ensures
        r == (reply.status == STATUS_OK && contains(reply.output@, "[OK]"@)),
{
    reply.status == STATUS_OK && text_contains(reply.output.as_str(), "[OK]")
}

/// Whether a reply to `write memory` shows the configuration written: it was
/// accepted and printed `[OK]`.
pub open spec fn write_took(reply: Option<&CliResult>) -> bool {
    match reply {
        Some(r) => r.status == STATUS_OK && contains(r.output@, "[OK]"@),
        None => false,
    }
}

/// A configuration block being typed: the cleaned commands and the outcome
/// of each one typed so far.
#[derive(Debug, Clone, PartialEq, Eq)]
pub struct ConfigureRun {
    pub device: String,
    pub commands: Vec<String>,
    pub results: Vec<CommandOutcome>,
}

impl ConfigureRun {
    /// The outcomes follow the commands in order, and every outcome but the
    /// last was accepted.
    pub open spec fn wf(&self) -> bool {
        &&& self.results@.len() <= self.commands@.len()
        &&& forall|k: int|
            0 <= k < self.results@.len() ==> #[trigger] self.results@[k].command@
                == self.commands@[k]@
        &&& forall|k: int|
            0 <= k < self.results@.len() - 1 ==> #[trigger] self.results@[k].status == STATUS_OK
    }

    /// The block stopped at a rejected command.
    pub open spec fn stopped(&self) -> bool {
        self.results@.len() > 0 && self.results@.last().status != STATUS_OK
    }

    /// Nothing is left to type.
    pub open spec fn done(&self) -> bool {
        self.stopped() || self.results@.len() == self.commands@.len()
    }

    /// A block about to be typed.
    pub fn new(device: String, commands: Vec<String>) -> (r: ConfigureRun)
        ensures
            r.wf(),
            r.device == device,
            r.commands == commands,
            r.results@.len() == 0,
    {
        ConfigureRun { device, commands, results: Vec::new() }
    }

    /// The command to type next and its mode: the first enters global
    /// configuration, the rest follow the prompt; none once the block is
    /// done or a command was rejected.
    pub fn next(&self) -> (r: Option<(String, CliMode)>)
        requires
            self.wf(),
        ensures
            self.done() ==> r is None,
            !self.done() ==> (r matches Some((c, m)) && c@ == self.commands@[self.results@.len() as int]@
                && m == (if self.results@.len() == 0 {
                CliMode::Global
            } else {
                CliMode::Current
            })),
    {
        let n = self.results.len();
        if n > 0 && self.results[n - 1].status != STATUS_OK {
            return None;
        }
        if n == self.commands.len() {
            return None;
        }
        Some((self.commands[n].clone(), command_mode(n)))
    }

    /// Records IOS's answer to the command typed last.
    pub fn record(&mut self, reply: &CliResult)
        requires
            old(self).wf(),
            !old(self).done(),
        ensures
            final(self).wf(),
            final(self).device == old(self).device,
            final(self).commands == old(self).commands,
            final(self).results@.len() == old(self).results@.len() + 1,
            final(self).results@.drop_last() == old(self).results@,
            final(self).results@.last().status == reply.status,
            final(self).results@.last().output@ == trim(reply.output@),
    {
        let n = self.results.len();
        let command = self.commands[n].clone();
        let outcome = outcome_of(command, reply);
        self.results.push(outcome);
        assert(self.results@.drop_last() =~= old(self).results@);
    }

    /// The command that leaves configuration mode once the block is done:
    /// `end`, typed at the current prompt.
    pub fn closing(&self) -> (r: (String, CliMode))
        ensures
            r.0@ == "end"@,
            r.1 == CliMode::Current,
    {
        ("end".to_owned(), CliMode::Current)
    }

    /// Whether the configuration is to be written once the block is done:
    /// saving was asked and every command was accepted.
    pub fn wants_save(&self, save: bool) -> (r: bool)
        requires
            self.wf(),
            self.done(),
        ensures
            r == (save && accepted_count(self.results@) == self.commands@.len()),
    {
        proof {
            lemma_stops_at_first_rejection(*self);
        }
        let n = self.results.len();
        let stopped = n > 0 && self.results[n - 1].status != STATUS_OK;
        save && !stopped
    }

    /// The command that writes the configuration, typed after `end` in
    /// enable mode: `write memory`, exactly when saving was asked and every
    /// command was accepted.
    pub fn save_step(&self, save: bool) -> (r: Option<(String, CliMode)>)
        requires
            self.wf(),
            self.done(),
        ensures
            r is Some <==> (save && accepted_count(self.results@) == self.commands@.len()),
            r matches Some((c, m)) ==> c@ == "write memory"@ && m == CliMode::Enable,
    {
        if self.wants_save(save) {
            Some(("write memory".to_owned(), CliMode::Enable))
        } else {
            None
        }
    }

    /// The answer once the block is done. The configuration counts as saved
    /// exactly when saving was asked, every command was accepted, and the
    /// reply to `write memory` was accepted and printed `[OK]`; a reply
    /// handed in for a block that was not to be saved is ignored.
    pub fn finish(self, save: bool, write_reply: Option<&CliResult>) -> (r: ConfigureIosResult)
        requires
            self.wf(),
            self.done(),
        ensures
            r.device == self.device,
            r.total == self.commands@.len(),
            r.applied == accepted_count(self.results@),
            r.completed == (accepted_count(self.results@) == self.commands@.len()),
            r.saved == (save && r.completed && write_took(write_reply)),
            r.results == self.results,
    {
        let wanted = self.wants_save(save);
        let saved = match write_reply {
            Some(reply) => wanted && write_saved(reply),
            None => false,
        };
        let total = self.commands.len();
        configure_result(self.device, total, self.results, saved)
    }
}

proof fn lemma_accepted_prefix(results: Seq<CommandOutcome>)
    requires
        forall|k: int| 0 <= k < results.len() ==> #[trigger] results[k].status == STATUS_OK,
    ensures
        accepted_count(results) == results.len(),
    decreases results.len(),
{
    if results.len() > 0 {
        lemma_accepted_prefix(results.drop_last());
    }
}

/// A configuration block stops at the first command IOS rejects: every
/// command before it was accepted, nothing after it is typed, and the
/// block counts as completed exactly when every command was typed and
/// accepted.
pub proof fn lemma_stops_at_first_rejection(run: ConfigureRun)
    requires
        run.wf(),
        run.done(),
    ensures
        forall|k: int| 0 <= k < run.results@.len() - 1 ==> #[trigger] run.results@[k].status
            == STATUS_OK,
        run.stopped() ==> accepted_count(run.results@) == run.results@.len() - 1,
        !run.stopped() ==> accepted_count(run.results@) == run.commands@.len(),
        (accepted_count(run.results@) == run.commands@.len()) <==> !run.stopped(),
{
    let r = run.results@;
    if r.len() > 0 {
        lemma_accepted_prefix(r.drop_last());
        assert(forall|k: int| 0 <= k < r.drop_last().len() ==> r.drop_last()[k] == r[k]);
    }
}

/// The index of the first outcome IOS rejected, at or after `i`, or the
/// number of outcomes when it rejected none.
pub open spec fn first_rejection_from(results: Seq<CommandOutcome>, i: int) -> int
    decreases results.len() - i,
{
    if i < 0 || i >= results.len() {
        results.len() as int
    } else if results[i].status != STATUS_OK {
        i
    } else {
        first_rejection_from(results, i + 1)
    }
}

/// The index of the first outcome IOS rejected, or how many there are.
pub open spec fn first_rejection(results: Seq<CommandOutcome>) -> int {
    first_rejection_from(results, 0)
}

proof fn lemma_first_rejection_from(results: Seq<CommandOutcome>, i: int)
    requires
        0 <= i <= results.len(),
        forall|j: int| 0 <= j < i ==> #[trigger] results[j].status == STATUS_OK,
    ensures
        i <= first_rejection_from(results, i) <= results.len(),
        forall|j: int| 0 <= j < first_rejection_from(results, i) ==> #[trigger] results[j].status == STATUS_OK,
        first_rejection_from(results, i) < results.len() ==> results[first_rejection_from(results, i)].status != STATUS_OK,
    decreases results.len() - i,
{
    if i < results.len() && results[i].status == STATUS_OK {
        lemma_first_rejection_from(results, i + 1);
    }
}

/// A finished configuration block in terms of the first command IOS
/// rejected, `k` (the number of commands when it rejected none): the
/// commands up to and including it were typed and nothing after, `k` of them
/// were applied, and the block completed exactly when none was rejected. A
/// block is saved only when it completed and saving was asked.
pub proof fn lemma_block_result(run: ConfigureRun, save: bool, write_reply: Option<&CliResult>, r: ConfigureIosResult)
    requires
        run.wf(),
        run.done(),
        r.total == run.commands@.len(),
        r.applied == accepted_count(run.results@),
        r.completed == (accepted_count(run.results@) == run.commands@.len()),
        r.saved == (save && r.completed && write_took(write_reply)),
        r.results == run.results,
    ensures
        ({
            let k = first_rejection(run.results@);
            let n = run.commands@.len() as int;
            &&& 0 <= k <= n
            &&& r.results@.len() == if k < n { k + 1 } else { n }
            &&& r.applied == k
            &&& r.completed == (k == n)
            &&& r.saved ==> r.completed && save
        }),
{
    let res = run.results@;
    lemma_stops_at_first_rejection(run);
    if res.len() > 0 {
        assert forall|j: int| 0 <= j < res.len() - 1 implies #[trigger] res[j].status == STATUS_OK by {}
    }
    lemma_first_rejection_from(res, 0);
    let k = first_rejection(res);
    if run.stopped() {
        assert(k == res.len() - 1);
    } else {
        assert(k == res.len());
    }
}

} // verus!
