//! systemd services: which units of a `ListUnits` reply the Services tab
//! shows, which manager calls each service operation makes, and how a
//! D-Bus failure is classified.

use vstd::prelude::*;
use vstd::string::StringSliceAdditionalSpecFns;
use vstd::utf8::encode_utf8;

use crate::ordering::{key_views, stable_order, stable_sort_by_keys};
use crate::text::{bytes_of, chars_of, contains_chars, lowercase_of, push_chars, seq_contains, to_lowercase};
use crate::CoreError;

verus! {

/// The bus a service lives on: the system bus or the user's session bus.
#[derive(Debug, Clone, Copy, PartialEq, Eq, Structural)]
pub enum ServiceScope {
    System,
    User,
}

/// What can be done to a service.
#[derive(Debug, Clone, Copy, PartialEq, Eq, Structural)]
pub enum ServiceOp {
    Start,
    Stop,
    Restart,
    Enable,
    Disable,
}

/// One service as the Services tab shows it.
#[derive(Debug, Clone)]
pub struct ServiceUnit {
    pub name: String,
    pub description: String,
    pub load_state: String,
    pub active_state: String,
    pub sub_state: String,
    pub scope: ServiceScope,
}

/// The fields of one `ListUnits` reply row that the tab keeps (name,
/// description, load, active and sub state, in the reply's order).
#[derive(Debug, Clone)]
pub struct UnitRecord {
    pub name: String,
    pub description: String,
    pub load_state: String,
    pub active_state: String,
    pub sub_state: String,
}

/// `.service` as bytes.
pub open spec fn service_suffix() -> Seq<u8> {
    seq![46u8, 115u8, 101u8, 114u8, 118u8, 105u8, 99u8, 101u8]
}

/// The unit's name ends in `.service`.
pub open spec fn is_service_name(name: Seq<char>) -> bool {
    let b = encode_utf8(name);
    b.len() >= 8 && b.subrange(b.len() - 8, b.len() as int) == service_suffix()
}

/// The unit the tab shows for a record.
pub open spec fn unit_of(r: UnitRecord, scope: ServiceScope) -> ServiceUnit {
    ServiceUnit {
        name: r.name,
        description: r.description,
        load_state: r.load_state,
        active_state: r.active_state,
        sub_state: r.sub_state,
        scope,
    }
}

/// The services among `reply`, in the reply's order, tagged with `scope`.
pub open spec fn service_units(reply: Seq<UnitRecord>, scope: ServiceScope) -> Seq<ServiceUnit>
    decreases reply.len(),
{
    if reply.len() == 0 {
        seq![]
    } else {
        let front = service_units(reply.drop_last(), scope);
        if is_service_name(reply.last().name@) {
            front.push(unit_of(reply.last(), scope))
        } else {
            front
        }
    }
}

/// Every unit listed is a service of the bus asked, and none is listed that
/// the reply did not hold.
pub proof fn lemma_listed_units_are_services(reply: Seq<UnitRecord>, scope: ServiceScope)
    ensures
        service_units(reply, scope).len() <= reply.len(),
        forall|i: int|
            0 <= i < service_units(reply, scope).len() ==> is_service_name(
                #[trigger] service_units(reply, scope)[i].name@,
            ) && service_units(reply, scope)[i].scope == scope,
    decreases reply.len(),
{
    if reply.len() > 0 {
        lemma_listed_units_are_services(reply.drop_last(), scope);
        let front = service_units(reply.drop_last(), scope);
        let out = service_units(reply, scope);
        assert forall|i: int| 0 <= i < out.len() implies is_service_name(
            #[trigger] out[i].name@,
        ) && out[i].scope == scope by {
            if i < front.len() {
                assert(out[i] == front[i]);
                assert(is_service_name(front[i].name@));
            } else {
                assert(is_service_name(reply.last().name@));
                assert(out[i] == unit_of(reply.last(), scope));
            }
        }
    }
}

/// The listing is exactly the reply's rows whose name ends in the bytes of
/// `.service`, every one of them and nothing else, in reply order, each with
/// its fields as the reply gave them and tagged with the bus asked.
pub proof fn lemma_listing_is_the_service_rows(reply: Seq<UnitRecord>, scope: ServiceScope)
    ensures
        service_units(reply, scope) == reply.filter_map(
            |r: UnitRecord|
                if encode_utf8(r.name@).len() >= 8 && encode_utf8(r.name@).subrange(
                    encode_utf8(r.name@).len() - 8,
                    encode_utf8(r.name@).len() as int,
                ) == seq![46u8, 115u8, 101u8, 114u8, 118u8, 105u8, 99u8, 101u8] {
                    Some(
                        ServiceUnit {
                            name: r.name,
                            description: r.description,
                            load_state: r.load_state,
                            active_state: r.active_state,
                            sub_state: r.sub_state,
                            scope,
                        },
                    )
                } else {
                    None
                },
        ),
    decreases reply.len(),
{
    if reply.len() > 0 {
        lemma_listing_is_the_service_rows(reply.drop_last(), scope);
        let front = service_units(reply.drop_last(), scope);
        assert(front.push(unit_of(reply.last(), scope)) =~= front + seq![unit_of(reply.last(), scope)]);
    }
}

/// Whether a unit name ends in `.service`.
pub fn has_service_suffix(name: &str) -> (r: bool)
    ensures
        r == is_service_name(name@),
{
    let b = name.as_bytes();
    let n = b.len();
    if n < 8 {
        return false;
    }
    let suffix: [u8; 8] = [46, 115, 101, 114, 118, 105, 99, 101];
    let mut k: usize = 0;
    while k < 8
        invariant
            n == b@.len(),
            n >= 8,
            b@ == encode_utf8(name@),
            suffix@ == service_suffix(),
            k <= 8,
            forall|j: int| 0 <= j < k ==> #[trigger] b@[n - 8 + j] == suffix@[j],
        decreases 8 - k,
    {
        if b[n - 8 + k] != suffix[k] {
            assert(b@.subrange(n - 8, n as int)[k as int] != service_suffix()[k as int]);
            return false;
        }
        k = k + 1;
    }
    assert forall|j: int| 0 <= j < 8 implies #[trigger] b@.subrange(n - 8, n as int)[j]
        == service_suffix()[j] by {
        assert(b@[n - 8 + j] == suffix@[j]);
    }
    assert(b@.subrange(n - 8, n as int) =~= service_suffix());
    true
}

/// The services of a `ListUnits` reply: rows whose name ends in `.service`,
/// in reply order, tagged with the bus they came from.
pub fn list_units(reply: Vec<UnitRecord>, scope: ServiceScope) -> (units: Vec<ServiceUnit>)
    ensures
        units@ == service_units(reply@, scope),
{
    broadcast use vstd::std_specs::vec::axiom_spec_into_iter;

    let ghost all = reply@;
    let mut units: Vec<ServiceUnit> = Vec::new();
    for rec in it: reply.into_iter()
        invariant
            it.seq() == all,
            units@ == service_units(all.take(it.index() as int), scope),
    {
        let ghost k = it.index();
        assert(all.take(k + 1).drop_last() =~= all.take(k as int));
        assert(all.take(k + 1).last() == rec);
        if has_service_suffix(rec.name.as_str()) {
            units.push(
                ServiceUnit {
                    name: rec.name,
                    description: rec.description,
                    load_state: rec.load_state,
                    active_state: rec.active_state,
                    sub_state: rec.sub_state,
                    scope,
                },
            );
        }
    }
    assert(all.take(all.len() as int) =~= all);
    units
}

/// A method of the `org.freedesktop.systemd1.Manager` interface.
#[derive(Debug, Clone, Copy, PartialEq, Eq, Structural)]
pub enum ManagerMethod {
    StartUnit,
    StopUnit,
    RestartUnit,
    EnableUnitFiles,
    DisableUnitFiles,
    Reload,
}

impl ManagerMethod {
    pub open spec fn method_name(self) -> Seq<char> {
        match self {
            ManagerMethod::StartUnit => "StartUnit"@,
            ManagerMethod::StopUnit => "StopUnit"@,
            ManagerMethod::RestartUnit => "RestartUnit"@,
            ManagerMethod::EnableUnitFiles => "EnableUnitFiles"@,
            ManagerMethod::DisableUnitFiles => "DisableUnitFiles"@,
            ManagerMethod::Reload => "Reload"@,
        }
    }

    /// The D-Bus member name.
    pub fn name(&self) -> (r: &'static str)
        ensures
            r@ == self.method_name(),
    {
        match self {
            ManagerMethod::StartUnit => "StartUnit",
            ManagerMethod::StopUnit => "StopUnit",
            ManagerMethod::RestartUnit => "RestartUnit",
            ManagerMethod::EnableUnitFiles => "EnableUnitFiles",
            ManagerMethod::DisableUnitFiles => "DisableUnitFiles",
            ManagerMethod::Reload => "Reload",
        }
    }
}

/// The body of a manager call.
#[derive(Debug, Clone)]
pub enum ManagerArgs {
    /// `(unit, mode)`, for the start/stop/restart verbs.
    UnitMode { unit: String, mode: String },
    /// `(files, runtime, force)`.
    EnableFiles { files: Vec<String>, runtime: bool, force: bool },
    /// `(files, runtime)`.
    DisableFiles { files: Vec<String>, runtime: bool },
    /// `()`.
    Empty,
}

/// One call on the manager interface; a call that is not required is
/// best-effort and its failure is ignored.
#[derive(Debug, Clone)]
pub struct ManagerCall {
    pub method: ManagerMethod,
    pub args: ManagerArgs,
    pub required: bool,
}

pub open spec fn replace_mode() -> Seq<char> {
    seq!['r', 'e', 'p', 'l', 'a', 'c', 'e']
}

/// A required `(unit, "replace")` call of `method`.
pub open spec fn is_unit_call(c: ManagerCall, method: ManagerMethod, unit: Seq<char>) -> bool {
    &&& c.method == method
    &&& c.required
    &&& c.args matches ManagerArgs::UnitMode { unit: u, mode: m }
    &&& u@ == unit
    &&& m@ == replace_mode()
}

/// A best-effort `Reload()`.
pub open spec fn is_reload(c: ManagerCall) -> bool {
    c.method == ManagerMethod::Reload && !c.required && c.args is Empty
}

/// The calls an operation on `unit` makes, in order: start, stop and
/// restart queue a job in "replace" mode; enable and disable change the
/// unit files (not at runtime only; enable forcing) and then ask the
/// manager, best-effort, to reload.
pub open spec fn service_plan(calls: Seq<ManagerCall>, unit: Seq<char>, op: ServiceOp) -> bool {
    match op {
        ServiceOp::Start => calls.len() == 1 && is_unit_call(calls[0], ManagerMethod::StartUnit, unit),
        ServiceOp::Stop => calls.len() == 1 && is_unit_call(calls[0], ManagerMethod::StopUnit, unit),
        ServiceOp::Restart => calls.len() == 1 && is_unit_call(
            calls[0],
            ManagerMethod::RestartUnit,
            unit,
        ),
        ServiceOp::Enable => {
            &&& calls.len() == 2
            &&& calls[0].method == ManagerMethod::EnableUnitFiles
            &&& calls[0].required
            &&& calls[0].args matches ManagerArgs::EnableFiles { files, runtime, force }
            &&& files@.len() == 1 && files@[0]@ == unit && !runtime && force
            &&& is_reload(calls[1])
        },
        ServiceOp::Disable => {
            &&& calls.len() == 2
            &&& calls[0].method == ManagerMethod::DisableUnitFiles
            &&& calls[0].required
            &&& calls[0].args matches ManagerArgs::DisableFiles { files, runtime }
            &&& files@.len() == 1 && files@[0]@ == unit && !runtime
            &&& is_reload(calls[1])
        },
    }
}

fn replace_text() -> (s: String)
    ensures
        s@ == replace_mode(),
{
    let mut s = String::new();
    let cs = ['r', 'e', 'p', 'l', 'a', 'c', 'e'];
    push_chars(&mut s, &cs);
    assert(s@ =~= replace_mode());
    s
}

fn reload_call() -> (c: ManagerCall)
    ensures
        is_reload(c),
{
    ManagerCall { method: ManagerMethod::Reload, args: ManagerArgs::Empty, required: false }
}

/// The manager calls that carry out `op` on `unit`; the caller runs them in
/// order on the scope's bus, stops at the first failing required call, and
/// ignores failures of the others.
pub fn service_action(unit: &str, op: ServiceOp) -> (calls: Vec<ManagerCall>)
    ensures
        service_plan(calls@, unit@, op),
{
    let name = unit.to_owned();
    let mut calls: Vec<ManagerCall> = Vec::new();
    match op {
        ServiceOp::Start => {
            calls.push(
                ManagerCall {
                    method: ManagerMethod::StartUnit,
                    args: ManagerArgs::UnitMode { unit: name, mode: replace_text() },
                    required: true,
                },
            );
        },
        ServiceOp::Stop => {
            calls.push(
                ManagerCall {
                    method: ManagerMethod::StopUnit,
                    args: ManagerArgs::UnitMode { unit: name, mode: replace_text() },
                    required: true,
                },
            );
        },
        ServiceOp::Restart => {
            calls.push(
                ManagerCall {
                    method: ManagerMethod::RestartUnit,
                    args: ManagerArgs::UnitMode { unit: name, mode: replace_text() },
                    required: true,
                },
            );
        },
        ServiceOp::Enable => {
            let mut files: Vec<String> = Vec::new();
            files.push(name);
            calls.push(
                ManagerCall {
                    method: ManagerMethod::EnableUnitFiles,
                    args: ManagerArgs::EnableFiles { files, runtime: false, force: true },
                    required: true,
                },
            );
            calls.push(reload_call());
        },
        ServiceOp::Disable => {
            let mut files: Vec<String> = Vec::new();
            files.push(name);
            calls.push(
                ManagerCall {
                    method: ManagerMethod::DisableUnitFiles,
                    args: ManagerArgs::DisableFiles { files, runtime: false },
                    required: true,
                },
            );
            calls.push(reload_call());
        },
    }
    calls
}

pub open spec fn words_access_denied() -> Seq<char> {
    seq!['a', 'c', 'c', 'e', 's', 's', ' ', 'd', 'e', 'n', 'i', 'e', 'd']
}

pub open spec fn words_authentication() -> Seq<char> {
    seq!['a', 'u', 't', 'h', 'e', 'n', 't', 'i', 'c', 'a', 't', 'i', 'o', 'n']
}

pub open spec fn words_interactive_authorization() -> Seq<char> {
    seq![
        'i', 'n', 't', 'e', 'r', 'a', 'c', 't', 'i', 'v', 'e', ' ', 'a', 'u', 't', 'h', 'o', 'r',
        'i', 'z', 'a', 't', 'i', 'o', 'n',
    ]
}

pub open spec fn words_permission() -> Seq<char> {
    seq!['p', 'e', 'r', 'm', 'i', 's', 's', 'i', 'o', 'n']
}

/// The lower-cased message speaks of a refusal: access denied,
/// authentication, interactive authorization or permission.
pub open spec fn speaks_of_refusal(lowered: Seq<char>) -> bool {
    ||| seq_contains(lowered, words_access_denied())
    ||| seq_contains(lowered, words_authentication())
    ||| seq_contains(lowered, words_interactive_authorization())
    ||| seq_contains(lowered, words_permission())
}

/// The error a D-Bus failure with `message` (lower-cased: `lowered`) maps to.
pub open spec fn dbus_error_is(e: CoreError, message: Seq<char>, lowered: Seq<char>) -> bool {
    if speaks_of_refusal(lowered) {
        e matches CoreError::PermissionDenied(Some(m)) && m@ == message
    } else {
        e matches CoreError::DBus(m) && m@ == message
    }
}

/// Classifies a D-Bus failure from its message and the message lower-cased:
/// polkit and permission refusals become `PermissionDenied`, the rest `DBus`;
/// the message is kept verbatim either way.
pub fn classify_dbus_error(message: String, lowered: &str) -> (e: CoreError)
    ensures
        dbus_error_is(e, message@, lowered@),
{
    let l = chars_of(lowered);
    let w1 = ['a', 'c', 'c', 'e', 's', 's', ' ', 'd', 'e', 'n', 'i', 'e', 'd'];
    let w2 = ['a', 'u', 't', 'h', 'e', 'n', 't', 'i', 'c', 'a', 't', 'i', 'o', 'n'];
    let w3 = [
        'i', 'n', 't', 'e', 'r', 'a', 'c', 't', 'i', 'v', 'e', ' ', 'a', 'u', 't', 'h', 'o', 'r',
        'i', 'z', 'a', 't', 'i', 'o', 'n',
    ];
    let w4 = ['p', 'e', 'r', 'm', 'i', 's', 's', 'i', 'o', 'n'];
    assert(w1@ =~= words_access_denied());
    assert(w2@ =~= words_authentication());
    assert(w3@ =~= words_interactive_authorization());
    assert(w4@ =~= words_permission());
    if contains_chars(&l, &w1) || contains_chars(&l, &w2) || contains_chars(&l, &w3)
        || contains_chars(&l, &w4) {
        CoreError::PermissionDenied(Some(message))
    } else {
        CoreError::DBus(message)
    }
}

/// Maps a D-Bus failure, given by its message, to the library's error.
pub fn map_dbus_err(message: String) -> (e: CoreError)
    ensures
        dbus_error_is(e, message@, lowercase_of(message@)),
{
    let lowered = to_lowercase(message.as_str());
    classify_dbus_error(message, lowered.as_str())
}

/// What to do next while the calls of a service operation run.
#[derive(Debug)]
pub enum RunStep {
    /// Make the call at this position of the plan.
    Call(usize),
    /// The operation is over, with this result.
    Finished(Result<(), CoreError>),
}

/// The D-Bus error message of a failed call, as characters.
pub open spec fn failure_view(failure: Option<String>) -> Option<Seq<char>> {
    match failure {
        Some(m) => Some(m@),
        None => None,
    }
}

/// The step after the call at `i` of `calls` came back, `failure` being the
/// D-Bus error message when it failed: a failed required call ends the run
/// with the error `map_dbus_err` gives; otherwise (success, or the failure
/// of a best-effort call) the next call follows, and after the last one the
/// run ends with `Ok`.
pub open spec fn step_is(r: RunStep, calls: Seq<ManagerCall>, i: int, failure: Option<Seq<char>>) -> bool {
    if failure is Some && calls[i].required {
        r matches RunStep::Finished(Err(e)) && dbus_error_is(
            e,
            failure->0,
            lowercase_of(failure->0),
        )
    } else if i + 1 < calls.len() {
        r == RunStep::Call((i + 1) as usize)
    } else {
        r matches RunStep::Finished(Ok(()))
    }
}

/// The first step of a run: the first call, or `Ok` at once for no calls.
pub fn first_step(calls: &Vec<ManagerCall>) -> (r: RunStep)
    ensures
        calls@.len() > 0 ==> r == RunStep::Call(0),
        calls@.len() == 0 ==> r matches RunStep::Finished(Ok(())),
{
    if calls.len() > 0 {
        RunStep::Call(0)
    } else {
        RunStep::Finished(Ok(()))
    }
}

/// The step after the call at `i` came back (`failure`: its D-Bus error
/// message, if it failed).
pub fn next_step(calls: &Vec<ManagerCall>, i: usize, failure: Option<String>) -> (r: RunStep)
    requires
        i < calls@.len(),
    ensures
        step_is(r, calls@, i as int, failure_view(failure)),
{
    match failure {
        Some(m) => {
            if calls[i].required {
                return RunStep::Finished(Err(map_dbus_err(m)));
            }
        },
        None => {},
    }
    if i < calls.len() - 1 {
        RunStep::Call(i + 1)
    } else {
        RunStep::Finished(Ok(()))
    }
}

/// Running the plan of an operation, the first (primary) call decides the
/// outcome: when it fails the run ends there with its error mapped by
/// `map_dbus_err` (no reload follows); when it succeeds, start, stop and
/// restart end with `Ok`, and enable and disable go on to the reload, after
/// which the run ends with `Ok` whether the reload failed or not.
pub proof fn lemma_primary_call_decides(
    calls: Seq<ManagerCall>,
    unit: Seq<char>,
    op: ServiceOp,
    r: RunStep,
    failure: Option<Seq<char>>,
)
    requires
        service_plan(calls, unit, op),
    ensures
        (op == ServiceOp::Enable || op == ServiceOp::Disable) <==> calls.len() == 2,
        step_is(r, calls, 0, failure) ==> match failure {
            Some(m) => r matches RunStep::Finished(Err(e)) && dbus_error_is(e, m, lowercase_of(m)),
            None => if calls.len() == 2 {
                r == RunStep::Call(1)
            } else {
                r matches RunStep::Finished(Ok(()))
            },
        },
        calls.len() == 2 && step_is(r, calls, 1, failure) ==> r matches RunStep::Finished(Ok(())),
{
}

/// The units ordered by name (as `String`s order), units with equal names
/// in their original order.
pub fn sort_services(units: &mut Vec<ServiceUnit>)
    ensures
        final(units)@ == stable_order(old(units)@.map_values(|u: ServiceUnit| encode_utf8(u.name@)))
            .map_values(|p: int| old(units)@[p]),
{
    let n = units.len();
    let mut keys: Vec<Vec<u8>> = Vec::new();
    let mut i: usize = 0;
    while i < n
        invariant
            n == units@.len(),
            i <= n,
            keys@.len() == i,
            forall|q: int| 0 <= q < i ==> #[trigger] keys@[q]@ == encode_utf8(units@[q].name@),
        decreases n - i,
    {
        keys.push(bytes_of(units[i].name.as_str()));
        i = i + 1;
    }
    assert(key_views(keys@) =~= units@.map_values(|u: ServiceUnit| encode_utf8(u.name@)));
    stable_sort_by_keys(units, &mut keys);
}

} // verus!
