//! The `UNSET` command: which settings are reset, and to what value.
//! The interpreter decides, one event at a time; dropping a global setting,
//! looking up a built-in default and resetting the setting of the session
//! are done by the caller, who reports each outcome as the next event.

use vstd::prelude::*;

use crate::error::ErrorCode;
use crate::error::ErrorKind;
use crate::text::decimal;
use crate::text::decimal_text;
use crate::text::same_text;

verus! {

/// The variables that an `UNSET` command names.
#[derive(Clone, Debug)]
pub struct UnSettingPlan {
    pub vars: Vec<String>,
}

/// What the server was configured with, as far as defaults depend on it.
/// Zero stands for "not configured".
#[derive(Clone, Copy, Debug, PartialEq, Eq, Structural)]
pub struct ServerLimits {
    pub max_server_memory_usage: u64,
    pub num_cpus: u64,
}

/// The settings that a query has changed, as reported to the client.
#[derive(Clone, Debug)]
pub struct ChangeSettings {
    pub keys: Vec<String>,
    pub values: Vec<String>,
    pub is_globals: Vec<bool>,
}

/// The lower-case form of a text, as `str::to_lowercase` gives it.
pub uninterp spec fn lowercase_text(text: Seq<char>) -> Seq<char>;

/// Calls `str::to_lowercase`. Trusted: that the result depends on the text alone.
#[verifier::external_body]
fn to_lowercase(text: &str) -> (lower: String)
    ensures
        lower@ == lowercase_text(text@),
{
    text.to_lowercase()
}

/// Whether a setting is one that drivers unset out of habit and that is left alone.
pub open spec fn is_ignored_key(key: Seq<char>) -> bool {
    key == "sql_mode"@ || key == "autocommit"@
}

/// The default that the configuration of the server gives a setting, if it
/// gives one: the memory limit and the number of threads, where configured.
pub open spec fn configured_default_text(key: Seq<char>, conf: ServerLimits) -> Option<Seq<char>> {
    if key == "max_memory_usage"@ {
        if conf.max_server_memory_usage == 0 {
            None
        } else {
            Some(decimal_text(conf.max_server_memory_usage as nat))
        }
    } else if key == "max_threads"@ {
        if conf.num_cpus == 0 {
            None
        } else {
            Some(decimal_text(conf.num_cpus as nat))
        }
    } else {
        None
    }
}

/// Whether a setting, given in lower case, is left alone by `UNSET`.
pub fn is_ignored_setting(key: &str) -> (r: bool)
    ensures
        r == is_ignored_key(key@),
{
    same_text(key, "sql_mode") || same_text(key, "autocommit")
}

/// The default that the configuration of the server gives a setting, given
/// in lower case. Where it gives none, the built-in default applies.
pub fn configured_default(key: &str, conf: &ServerLimits) -> (r: Option<String>)
    ensures
        r is Some <==> configured_default_text(key@, *conf) is Some,
        r is Some ==> r->Some_0@ == configured_default_text(key@, *conf)->Some_0,
{
    if same_text(key, "max_memory_usage") {
        if conf.max_server_memory_usage == 0 {
            None
        } else {
            Some(decimal(conf.max_server_memory_usage as u128))
        }
    } else if same_text(key, "max_threads") {
        if conf.num_cpus == 0 {
            None
        } else {
            Some(decimal(conf.num_cpus as u128))
        }
    } else {
        None
    }
}

/// The views of a sequence of texts.
pub open spec fn texts_view(s: Seq<String>) -> Seq<Seq<char>> {
    Seq::new(s.len(), |i: int| s[i]@)
}

/// Mathematical value of a `ChangeSettings`.
pub struct ChangeSettingsView {
    pub keys: Seq<Seq<char>>,
    pub values: Seq<Seq<char>>,
    pub is_globals: Seq<bool>,
}

impl View for ChangeSettings {
    type V = ChangeSettingsView;

    open spec fn view(&self) -> ChangeSettingsView {
        ChangeSettingsView {
            keys: texts_view(self.keys@),
            values: texts_view(self.values@),
            is_globals: self.is_globals@,
        }
    }
}

impl ChangeSettings {
    /// No setting changed.
    pub fn new() -> (c: ChangeSettings)
        ensures
            c@ == no_changes(),
    {
        let c = ChangeSettings { keys: Vec::new(), values: Vec::new(), is_globals: Vec::new() };
        assert(c@.keys =~= Seq::empty());
        assert(c@.values =~= Seq::empty());
        c
    }

    /// Records that a variable of the session was reset to a value.
    pub fn record(&mut self, var: String, value: String)
        ensures
            final(self)@ == recorded(old(self)@, var@, value@),
    {
        self.keys.push(var);
        self.values.push(value);
        self.is_globals.push(false);
        assert(self@.keys =~= old(self)@.keys.push(var@));
        assert(self@.values =~= old(self)@.values.push(value@));
    }
}

/// No setting changed.
pub open spec fn no_changes() -> ChangeSettingsView {
    ChangeSettingsView { keys: Seq::empty(), values: Seq::empty(), is_globals: Seq::empty() }
}

/// The changes with one more setting of the session reset to a value.
pub open spec fn recorded(c: ChangeSettingsView, var: Seq<char>, value: Seq<char>) -> ChangeSettingsView {
    ChangeSettingsView {
        keys: c.keys.push(var),
        values: c.values.push(value),
        is_globals: c.is_globals.push(false),
    }
}

/// Where the execution of an `UNSET` stands.
#[derive(Debug)]
pub enum UnsetPhase {
    /// Nothing is under way; the next variable is looked at on `Start`.
    Ready,
    /// Waiting until the global setting of the current variable is dropped.
    Dropping { key: String },
    /// Waiting for the built-in default of the current variable.
    Defaulting { key: String },
    /// Waiting until the setting of the session is reset; it will be reported with this value.
    Unsetting { value: String },
    /// Every variable is dealt with.
    Finished,
    /// The execution ended on an error.
    Failed,
}

/// Mathematical value of an `UnsetPhase`.
pub enum UnsetPhaseView {
    Ready,
    Dropping { key: Seq<char> },
    Defaulting { key: Seq<char> },
    Unsetting { value: Seq<char> },
    Finished,
    Failed,
}

impl View for UnsetPhase {
    type V = UnsetPhaseView;

    open spec fn view(&self) -> UnsetPhaseView {
        match self {
            UnsetPhase::Ready => UnsetPhaseView::Ready,
            UnsetPhase::Dropping { key } => UnsetPhaseView::Dropping { key: key@ },
            UnsetPhase::Defaulting { key } => UnsetPhaseView::Defaulting { key: key@ },
            UnsetPhase::Unsetting { value } => UnsetPhaseView::Unsetting { value: value@ },
            UnsetPhase::Finished => UnsetPhaseView::Finished,
            UnsetPhase::Failed => UnsetPhaseView::Failed,
        }
    }
}

/// What the caller reports to the interpreter.
#[derive(Debug)]
pub enum UnsetEvent {
    /// Go on with the next variable.
    Start,
    /// The global setting was dropped.
    GlobalDropped,
    /// The built-in default of the setting.
    BuiltinDefault(String),
    /// The setting of the session was reset.
    SettingUnset,
    /// What was asked for failed with this error.
    Failed(ErrorCode),
}

/// Mathematical value of an `UnsetEvent`.
pub enum UnsetEventView {
    Start,
    GlobalDropped,
    BuiltinDefault(Seq<char>),
    SettingUnset,
    Failed(ErrorKind, Seq<char>),
}

impl View for UnsetEvent {
    type V = UnsetEventView;

    open spec fn view(&self) -> UnsetEventView {
        match self {
            UnsetEvent::Start => UnsetEventView::Start,
            UnsetEvent::GlobalDropped => UnsetEventView::GlobalDropped,
            UnsetEvent::BuiltinDefault(v) => UnsetEventView::BuiltinDefault(v@),
            UnsetEvent::SettingUnset => UnsetEventView::SettingUnset,
            UnsetEvent::Failed(e) => UnsetEventView::Failed(e.kind, e.message@),
        }
    }
}

/// What the interpreter asks of the caller next.
#[derive(Debug)]
pub enum UnsetAction {
    /// Drop the global setting with this key, then report `GlobalDropped`.
    DropGlobalSetting { key: String },
    /// Look up the built-in default of this key and report it.
    LookupDefault { key: String },
    /// Reset the setting of the session that the command named, then report `SettingUnset`.
    UnsetSetting { var: String },
    /// Nothing more: report these changes to the client.
    Finish(ChangeSettings),
    /// Nothing more: the command fails with this error.
    Fail(ErrorCode),
}

/// Mathematical value of an `UnsetAction`.
pub enum UnsetActionView {
    DropGlobalSetting { key: Seq<char> },
    LookupDefault { key: Seq<char> },
    UnsetSetting { var: Seq<char> },
    Finish(ChangeSettingsView),
    Fail(ErrorKind, Seq<char>),
}

impl View for UnsetAction {
    type V = UnsetActionView;

    open spec fn view(&self) -> UnsetActionView {
        match self {
            UnsetAction::DropGlobalSetting { key } => UnsetActionView::DropGlobalSetting {
                key: key@,
            },
            UnsetAction::LookupDefault { key } => UnsetActionView::LookupDefault { key: key@ },
            UnsetAction::UnsetSetting { var } => UnsetActionView::UnsetSetting { var: var@ },
            UnsetAction::Finish(c) => UnsetActionView::Finish(c@),
            UnsetAction::Fail(e) => UnsetActionView::Fail(e.kind, e.message@),
        }
    }
}

/// Executes `UNSET`.
#[derive(Debug)]
pub struct UnSettingInterpreter {
    conf: ServerLimits,
    set: UnSettingPlan,
    position: usize,
    changes: ChangeSettings,
    phase: UnsetPhase,
}

/// Mathematical value of an `UnSettingInterpreter`.
pub struct UnsetView {
    /// The configuration of the server.
    pub conf: ServerLimits,
    /// The variables that the command names.
    pub vars: Seq<Seq<char>>,
    /// The index of the variable that is dealt with next or right now.
    pub position: int,
    /// The settings that were reset so far.
    pub changes: ChangeSettingsView,
    /// Where the execution stands.
    pub phase: UnsetPhaseView,
}

impl View for UnSettingInterpreter {
    type V = UnsetView;

    closed spec fn view(&self) -> UnsetView {
        UnsetView {
            conf: self.conf,
            vars: texts_view(self.set.vars@),
            position: self.position as int,
            changes: self.changes@,
            phase: self.phase@,
        }
    }
}

/// The message of the error for an event that does not fit the phase.
pub open spec fn out_of_turn() -> Seq<char> {
    "event does not fit the phase of the command"@
}

/// The index of the first variable from `from` on that is not left alone,
/// or the number of variables where there is none.
pub open spec fn skip_ignored(vars: Seq<Seq<char>>, from: int) -> int
    decreases vars.len() - from,
{
    if from < 0 || from >= vars.len() {
        vars.len() as int
    } else if is_ignored_key(lowercase_text(vars[from])) {
        skip_ignored(vars, from + 1)
    } else {
        from
    }
}

/// Going on from a state in which nothing is under way: variables that are
/// left alone are passed over; for the first other one its global setting
/// is to be dropped; where none is left the changes are handed out, and
/// the interpreter keeps none.
pub open spec fn proceed(m: UnsetView) -> (UnsetView, UnsetActionView) {
    let next = skip_ignored(m.vars, m.position);
    if next >= m.vars.len() {
        (
            UnsetView {
                position: next,
                changes: no_changes(),
                phase: UnsetPhaseView::Finished,
                ..m
            },
            UnsetActionView::Finish(m.changes),
        )
    } else {
        let key = lowercase_text(m.vars[next]);
        (
            UnsetView { position: next, phase: UnsetPhaseView::Dropping { key }, ..m },
            UnsetActionView::DropGlobalSetting { key },
        )
    }
}

/// One transition of the execution: the state after the event and what the
/// caller is to do next. An event that the phase does not expect is
/// refused with `Internal` and changes nothing.
pub open spec fn transition(m: UnsetView, e: UnsetEventView) -> (UnsetView, UnsetActionView) {
    match (m.phase, e) {
        (UnsetPhaseView::Ready, UnsetEventView::Start) => proceed(m),
        (UnsetPhaseView::Dropping { key }, UnsetEventView::GlobalDropped) => {
            match configured_default_text(key, m.conf) {
                Some(value) => (
                    UnsetView { phase: UnsetPhaseView::Unsetting { value }, ..m },
                    UnsetActionView::UnsetSetting { var: m.vars[m.position] },
                ),
                None => (
                    UnsetView { phase: UnsetPhaseView::Defaulting { key }, ..m },
                    UnsetActionView::LookupDefault { key },
                ),
            }
        },
        (UnsetPhaseView::Defaulting { key }, UnsetEventView::BuiltinDefault(value)) => (
            UnsetView { phase: UnsetPhaseView::Unsetting { value }, ..m },
            UnsetActionView::UnsetSetting { var: m.vars[m.position] },
        ),
        (UnsetPhaseView::Unsetting { value }, UnsetEventView::SettingUnset) => proceed(
            UnsetView {
                position: m.position + 1,
                changes: recorded(m.changes, m.vars[m.position], value),
                phase: UnsetPhaseView::Ready,
                ..m
            },
        ),
        (UnsetPhaseView::Dropping { key }, UnsetEventView::Failed(kind, message)) => (
            UnsetView { phase: UnsetPhaseView::Failed, ..m },
            UnsetActionView::Fail(kind, message),
        ),
        (UnsetPhaseView::Defaulting { key }, UnsetEventView::Failed(kind, message)) => (
            UnsetView { phase: UnsetPhaseView::Failed, ..m },
            UnsetActionView::Fail(kind, message),
        ),
        _ => (m, UnsetActionView::Fail(ErrorKind::Internal, out_of_turn())),
    }
}

impl UnSettingInterpreter {
    /// A variable is under way exactly in the phases that wait for something.
    pub closed spec fn wf(&self) -> bool {
        &&& self.position <= self.set.vars@.len()
        &&& (self.phase is Dropping || self.phase is Defaulting || self.phase is Unsetting)
            ==> self.position < self.set.vars@.len()
    }

    /// The interpreter of the given plan on a server with the given configuration.
    pub fn try_create(conf: ServerLimits, set: UnSettingPlan) -> (r: Result<
        UnSettingInterpreter,
        ErrorCode,
    >)
        ensures
            r is Ok,
            r->Ok_0.wf(),
            r->Ok_0@ == (UnsetView {
                conf,
                vars: texts_view(set.vars@),
                position: 0,
                changes: no_changes(),
                phase: UnsetPhaseView::Ready,
            }),
    {
        Ok(
            UnSettingInterpreter {
                conf,
                set,
                position: 0,
                changes: ChangeSettings::new(),
                phase: UnsetPhase::Ready,
            },
        )
    }

    /// The name of the interpreter.
    pub fn name(&self) -> (n: &'static str)
        ensures
            n@ == "SettingInterpreter"@,
    {
        "SettingInterpreter"
    }

    /// Where the execution stands.
    pub fn phase(&self) -> (p: &UnsetPhase)
        ensures
            p@ == self@.phase,
    {
        &self.phase
    }

    /// The key under which a variable is reset: its lower-case form, or
    /// nothing where the variable is one that is left alone.
    pub fn setting_key(var: &str) -> (r: Option<String>)
        ensures
            r is None <==> is_ignored_key(lowercase_text(var@)),
            r is Some ==> r->Some_0@ == lowercase_text(var@),
    {
        let key = to_lowercase(var);
        if is_ignored_setting(key.as_str()) {
            None
        } else {
            Some(key)
        }
    }

    fn go_on(&mut self) -> (action: UnsetAction)
        requires
            old(self).wf(),
            old(self).phase is Ready,
        ensures
            final(self).wf(),
            (final(self)@, action@) == proceed(old(self)@),
    {
        let ghost vars = texts_view(self.set.vars@);
        while self.position < self.set.vars.len()
            invariant
                self.position <= self.set.vars@.len(),
                self.phase is Ready,
                vars == texts_view(self.set.vars@),
                self.conf == old(self).conf,
                self.changes == old(self).changes,
                self.set == old(self).set,
                skip_ignored(vars, self.position as int) == skip_ignored(
                    vars,
                    old(self).position as int,
                ),
            decreases self.set.vars@.len() - self.position,
        {
            assert(vars[self.position as int] == self.set.vars@[self.position as int]@);
            match Self::setting_key(self.set.vars[self.position].as_str()) {
                Some(key) => {
                    let ask = key.clone();
                    self.phase = UnsetPhase::Dropping { key };
                    return UnsetAction::DropGlobalSetting { key: ask };
                },
                None => {
                    self.position = self.position + 1;
                },
            }
        }
        assert(skip_ignored(vars, self.position as int) == vars.len());
        self.phase = UnsetPhase::Finished;
        let mut changes = ChangeSettings::new();
        std::mem::swap(&mut self.changes, &mut changes);
        UnsetAction::Finish(changes)
    }

    /// Takes the next event and says what to do next, as `transition` defines it.
    pub fn step(&mut self, event: UnsetEvent) -> (action: UnsetAction)
        requires
            old(self).wf(),
        ensures
            final(self).wf(),
            (final(self)@, action@) == transition(old(self)@, event@),
    {
        let mut phase = UnsetPhase::Ready;
        std::mem::swap(&mut self.phase, &mut phase);
        assert(phase == old(self).phase);
        assert(!(phase is Ready || phase is Finished || phase is Failed) ==> self.position
            < self.set.vars@.len());
        match (phase, event) {
            (UnsetPhase::Ready, UnsetEvent::Start) => self.go_on(),
            (UnsetPhase::Dropping { key }, UnsetEvent::GlobalDropped) => {
                match configured_default(key.as_str(), &self.conf) {
                    Some(value) => {
                        self.phase = UnsetPhase::Unsetting { value };
                        UnsetAction::UnsetSetting { var: self.set.vars[self.position].clone() }
                    },
                    None => {
                        let ask = key.clone();
                        self.phase = UnsetPhase::Defaulting { key };
                        UnsetAction::LookupDefault { key: ask }
                    },
                }
            },
            (UnsetPhase::Defaulting { key }, UnsetEvent::BuiltinDefault(value)) => {
                self.phase = UnsetPhase::Unsetting { value };
                UnsetAction::UnsetSetting { var: self.set.vars[self.position].clone() }
            },
            (UnsetPhase::Unsetting { value }, UnsetEvent::SettingUnset) => {
                self.changes.record(self.set.vars[self.position].clone(), value);
                assert(self.position < self.set.vars.len());
                self.position = self.position + 1;
                self.go_on()
            },
            (UnsetPhase::Dropping { key }, UnsetEvent::Failed(e)) => {
                self.phase = UnsetPhase::Failed;
                UnsetAction::Fail(e)
            },
            (UnsetPhase::Defaulting { key }, UnsetEvent::Failed(e)) => {
                self.phase = UnsetPhase::Failed;
                UnsetAction::Fail(e)
            },
            (phase, _) => {
                self.phase = phase;
                UnsetAction::Fail(
                    ErrorCode::new(
                        ErrorKind::Internal,
                        "event does not fit the phase of the command",
                    ),
                )
            },
        }
    }
}

/// The variables that are passed over are those that are left alone, and
/// the variable that is stopped at is not one of them.
pub proof fn lemma_skip_ignored(vars: Seq<Seq<char>>, from: int)
    requires
        0 <= from <= vars.len(),
    ensures
        from <= skip_ignored(vars, from) <= vars.len(),
        forall|i: int|
            from <= i < skip_ignored(vars, from) ==> is_ignored_key(
                lowercase_text(#[trigger] vars[i]),
            ),
        skip_ignored(vars, from) < vars.len() ==> !is_ignored_key(
            lowercase_text(vars[skip_ignored(vars, from)]),
        ),
    decreases vars.len() - from,
{
    if from < vars.len() && is_ignored_key(lowercase_text(vars[from])) {
        lemma_skip_ignored(vars, from + 1);
    }
}

/// Every change is one of the session: as many values and marks as keys,
/// and no mark says "global".
pub open spec fn session_only(c: ChangeSettingsView) -> bool {
    &&& c.keys.len() == c.values.len()
    &&& c.keys.len() == c.is_globals.len()
    &&& forall|i: int| 0 <= i < c.is_globals.len() ==> !c.is_globals[i]
}

/// Whatever happens, the changes that the interpreter keeps and those that
/// it hands out are changes of the session only.
pub proof fn lemma_changes_are_session_only(m: UnsetView, e: UnsetEventView)
    requires
        session_only(m.changes),
    ensures
        session_only(transition(m, e).0.changes),
        transition(m, e).1 matches UnsetActionView::Finish(c) ==> session_only(c),
{
}

/// A variable that is left alone leads to no action: from a state in which
/// nothing is under way, the next thing asked for concerns the first
/// variable that is not left alone, and where there is none the command ends.
pub proof fn lemma_ignored_variables_cause_nothing(m: UnsetView)
    requires
        m.phase is Ready,
        0 <= m.position <= m.vars.len(),
    ensures
        ({
            let (after, action) = transition(m, UnsetEventView::Start);
            let next = skip_ignored(m.vars, m.position);
            &&& after.position == next
            &&& after.changes == (if next < m.vars.len() {
                m.changes
            } else {
                no_changes()
            })
            &&& next < m.vars.len() ==> action == (UnsetActionView::DropGlobalSetting {
                key: lowercase_text(m.vars[next]),
            }) && !is_ignored_key(lowercase_text(m.vars[next]))
            &&& next >= m.vars.len() ==> action == UnsetActionView::Finish(m.changes)
        }),
{
    lemma_skip_ignored(m.vars, m.position);
}

} // verus!
