//! The status envelope: the JSON object that carries an outcome, a success
//! with its payload or a failure with its rendered trace, across a process
//! boundary.

use crate::conversion::json::{JsonDict, JsonModel, JsonValue};
use crate::exception::{
    captured, exception, Cause, CauseView, Exception, ExceptionView, Outcome,
};
use crate::exception_names::DataFormatException;
use vstd::prelude::*;
use vstd::string::*;

verus! {

/// The tag of a failure raised for a required field that is absent.
pub const JsonNoRequiredFieldException: &'static str = "JsonNoRequiredFieldException";

/// The location that the envelope protocol reports for the failures it raises itself.
pub const ENVELOPE_SITE: &'static str = "xuanmi_base_support::conversion::json";

/// The key of the discriminant field of an envelope.
pub open spec fn status_key() -> Seq<char> {
    "status"@
}

/// The key under which a failure's rendered trace travels.
pub open spec fn trace_key() -> Seq<char> {
    "trace"@
}

/// The reserved singleton keys, in the order in which they are looked for.
pub open spec fn reserved_keys() -> Seq<Seq<char>> {
    seq!["__array"@, "__bool"@, "__string"@, "__number"@]
}

/// Whether `key` is one of the reserved singleton keys.
pub open spec fn is_reserved_key(key: Seq<char>) -> bool {
    key == "__array"@ || key == "__bool"@ || key == "__string"@ || key == "__number"@
}

/// How many of the first `upto` reserved keys occur in `entries`.
pub open spec fn reserved_count(entries: Map<Seq<char>, JsonModel>, upto: int) -> int
    decreases upto,
{
    if upto <= 0 {
        0
    } else {
        reserved_count(entries, upto - 1) + if entries.contains_key(reserved_keys()[upto - 1]) {
            1int
        } else {
            0int
        }
    }
}

/// The first reserved key that occurs in `entries` (the last one where none does).
pub open spec fn first_reserved_key(entries: Map<Seq<char>, JsonModel>) -> Seq<char> {
    if entries.contains_key("__array"@) {
        "__array"@
    } else if entries.contains_key("__bool"@) {
        "__bool"@
    } else if entries.contains_key("__string"@) {
        "__string"@
    } else {
        "__number"@
    }
}

/// Whether an object payload uses a key that the envelope needs for itself.
pub open spec fn uses_envelope_key(entries: Map<Seq<char>, JsonModel>) -> bool {
    entries.contains_key(status_key()) || reserved_count(entries, 4) > 0
}

/// The ways in which an object can fail to be an envelope, or a payload can
/// fail to fit into one.
#[derive(Clone, Copy, Debug, PartialEq, Eq, Structural)]
pub enum Violation {
    StatusAbsent,
    StatusNotText,
    StatusUnknown,
    SeveralReservedKeys,
    TraceAbsent,
    TraceNotText,
    PayloadUsesEnvelopeKey,
}

/// What an object says when read as an envelope.
pub enum Decoded {
    /// `status` is `"ok"`: the payload.
    Value(JsonModel),
    /// `status` is `"err"`: the rendered trace of the remote failure.
    Failure(Seq<char>),
    /// The object is no envelope.
    Malformed(Violation),
}

/// The envelope of a success with payload `value`; `None` for an object
/// payload that uses a key the envelope needs for itself.
pub open spec fn success_envelope(value: JsonModel) -> Option<Map<Seq<char>, JsonModel>> {
    let ok = JsonModel::String("ok"@);
    match value {
        JsonModel::Null => Some(map![status_key() => ok]),
        JsonModel::Bool(_) => Some(map![status_key() => ok, "__bool"@ => value]),
        JsonModel::Number(_) => Some(map![status_key() => ok, "__number"@ => value]),
        JsonModel::String(_) => Some(map![status_key() => ok, "__string"@ => value]),
        JsonModel::Array(_) => Some(map![status_key() => ok, "__array"@ => value]),
        JsonModel::Object(entries) => if uses_envelope_key(entries) {
            None
        } else {
            Some(entries.insert(status_key(), ok))
        },
    }
}

/// The envelope of a failure whose rendering is `trace`.
pub open spec fn failure_envelope(trace: Seq<char>) -> Map<Seq<char>, JsonModel> {
    map![status_key() => JsonModel::String("err"@), trace_key() => JsonModel::String(trace)]
}

/// The reading of `entries` as an envelope.
pub open spec fn decoded(entries: Map<Seq<char>, JsonModel>) -> Decoded {
    if !entries.contains_key(status_key()) {
        Decoded::Malformed(Violation::StatusAbsent)
    } else {
        match entries[status_key()] {
            JsonModel::String(status) => if status == "ok"@ {
                if reserved_count(entries, 4) > 1 {
                    Decoded::Malformed(Violation::SeveralReservedKeys)
                } else if reserved_count(entries, 4) == 1 {
                    Decoded::Value(entries[first_reserved_key(entries)])
                } else if entries.remove(status_key()) == Map::<Seq<char>, JsonModel>::empty() {
                    Decoded::Value(JsonModel::Null)
                } else {
                    Decoded::Value(JsonModel::Object(entries.remove(status_key())))
                }
            } else if status == "err"@ {
                if !entries.contains_key(trace_key()) {
                    Decoded::Malformed(Violation::TraceAbsent)
                } else {
                    match entries[trace_key()] {
                        JsonModel::String(trace) => Decoded::Failure(trace),
                        _ => Decoded::Malformed(Violation::TraceNotText),
                    }
                }
            } else {
                Decoded::Malformed(Violation::StatusUnknown)
            },
            _ => Decoded::Malformed(Violation::StatusNotText),
        }
    }
}

/// The explanation attached to a format violation.
pub open spec fn violation_text(kind: Violation) -> Seq<char> {
    match kind {
        Violation::StatusAbsent => "status field absent"@,
        Violation::StatusNotText => "status field is not a string"@,
        Violation::StatusUnknown => "status field must be either \"ok\" or \"err\""@,
        Violation::SeveralReservedKeys => "at most one of __array, __bool, __string, __number may be present"@,
        Violation::TraceAbsent => "trace field absent"@,
        Violation::TraceNotText => "trace field is not a string"@,
        Violation::PayloadUsesEnvelopeKey => "payload uses a key reserved for the envelope"@,
    }
}

/// The failure raised for a format violation.
pub open spec fn violation_failure(kind: Violation) -> ExceptionView {
    captured(DataFormatException@, violation_text(kind), ENVELOPE_SITE@, 0, 0, None)
}

/// The local failure that stands for a remote one: an unnamed, located node
/// whose cause is the trace that came in the envelope.
pub open spec fn remote_failure(trace: Seq<char>) -> ExceptionView {
    captured(
        Seq::empty(),
        Seq::empty(),
        ENVELOPE_SITE@,
        0,
        0,
        Some(CauseView::Message(trace)),
    )
}

/// The explanation attached to the absence of a required field.
pub open spec fn absent_field_text(field: Seq<char>) -> Seq<char> {
    "The required JSON field \""@ + field + "\" is absent"@
}

/// The failure raised for a required field that is absent.
pub open spec fn absent_field_failure(field: Seq<char>) -> ExceptionView {
    captured(
        JsonNoRequiredFieldException@,
        absent_field_text(field),
        ENVELOPE_SITE@,
        0,
        0,
        None,
    )
}

fn violation(kind: Violation) -> (ex: Box<Exception>)
    ensures
        ex@ == violation_failure(kind),
{
    let text = match kind {
        Violation::StatusAbsent => "status field absent",
        Violation::StatusNotText => "status field is not a string",
        Violation::StatusUnknown => "status field must be either \"ok\" or \"err\"",
        Violation::SeveralReservedKeys => "at most one of __array, __bool, __string, __number may be present",
        Violation::TraceAbsent => "trace field absent",
        Violation::TraceNotText => "trace field is not a string",
        Violation::PayloadUsesEnvelopeKey => "payload uses a key reserved for the envelope",
    };
    exception(DataFormatException, text, ENVELOPE_SITE, 0, 0)
}

fn text_is(text: &String, literal: &str) -> (r: bool)
    ensures
        r == (text@ == literal@),
{
    let other = String::from_str(literal);
    *text == other
}

proof fn lemma_envelope_keys_differ()
    ensures
        "status"@ != "trace"@,
        !is_reserved_key("status"@),
        !is_reserved_key("trace"@),
        "__array"@ != "__bool"@,
        "__array"@ != "__string"@,
        "__array"@ != "__number"@,
        "__bool"@ != "__string"@,
        "__bool"@ != "__number"@,
        "__string"@ != "__number"@,
        "ok"@ != "err"@,
        reserved_keys().len() == 4,
{
    reveal_strlit("status");
    reveal_strlit("trace");
    reveal_strlit("__array");
    reveal_strlit("__bool");
    reveal_strlit("__string");
    reveal_strlit("__number");
    reveal_strlit("ok");
    reveal_strlit("err");
    assert("status"@.len() == 6);
    assert("trace"@.len() == 5);
    assert("__array"@.len() == 7);
    assert("__bool"@.len() == 6);
    assert("__string"@.len() == 8);
    assert("__number"@.len() == 8);
    assert("__string"@[2] == 's');
    assert("__number"@[2] == 'n');
    assert("__bool"@[0] == '_');
    assert("status"@[0] == 's');
    assert("ok"@.len() == 2);
    assert("err"@.len() == 3);
}

/// Access to the fields of a JSON object, and its reading as a status envelope.
pub trait JsonDictGet {
    /// The entries of the object.
    spec fn entries(&self) -> Map<Seq<char>, JsonModel>;

    /// The value under `field`, which must be there: its absence is a failure.
    fn get_must_provide(&self, field: &str) -> (out: Outcome<&JsonValue>)
        ensures
            match out {
                Ok(value) => self.entries().contains_key(field@) && value@ == self.entries()[field@],
                Err(ex) => !self.entries().contains_key(field@) && ex@ == absent_field_failure(
                    field@,
                ),
            },
    ;

    /// The value under `field`, or `default` where there is none.
    fn get_with_default<'a>(&'a self, field: &str, default: &'a JsonValue) -> (out: Outcome<
        &'a JsonValue,
    >)
        ensures
            out is Ok,
            out->Ok_0@ == (if self.entries().contains_key(field@) {
                self.entries()[field@]
            } else {
                default@
            }),
    ;

    /// Reads the object as a status envelope: the payload of a success, the
    /// remote failure as a local one, or a format violation.
    fn catch_(&self) -> (out: Outcome<JsonValue>)
        ensures
            match decoded(self.entries()) {
                Decoded::Value(value) => out is Ok && out->Ok_0@ == value,
                Decoded::Failure(trace) => out is Err && out->Err_0@ == remote_failure(trace),
                Decoded::Malformed(kind) => out is Err && out->Err_0@ == violation_failure(kind),
            },
    ;

    /// The same reading as [`catch_`](Self::catch_), under a name that does
    /// not collide with the adapter of results.
    fn jcatch_(&self) -> (out: Outcome<JsonValue>)
        ensures
            match decoded(self.entries()) {
                Decoded::Value(value) => out is Ok && out->Ok_0@ == value,
                Decoded::Failure(trace) => out is Err && out->Err_0@ == remote_failure(trace),
                Decoded::Malformed(kind) => out is Err && out->Err_0@ == violation_failure(kind),
            },
    ;
}

impl JsonDictGet for JsonDict {
    open spec fn entries(&self) -> Map<Seq<char>, JsonModel> {
        self@
    }

    fn get_must_provide(&self, field: &str) -> (out: Outcome<&JsonValue>) {
        match self.get(field) {
            Some(value) => Ok(value),
            None => {
                let mut ctx = String::from_str("The required JSON field \"");
                ctx.append(field);
                ctx.append("\" is absent");
                Err(exception(JsonNoRequiredFieldException, ctx.as_str(), ENVELOPE_SITE, 0, 0))
            },
        }
    }

    fn get_with_default<'a>(&'a self, field: &str, default: &'a JsonValue) -> (out: Outcome<
        &'a JsonValue,
    >) {
        match self.get(field) {
            Some(value) => Ok(value),
            None => Ok(default),
        }
    }

    fn jcatch_(&self) -> (out: Outcome<JsonValue>) {
        self.catch_()
    }

    fn catch_(&self) -> (out: Outcome<JsonValue>) {
        proof {
            lemma_envelope_keys_differ();
        }
        let status = match self.get("status") {
            Some(JsonValue::String(status)) => status,
            Some(_) => {
                return Err(violation(Violation::StatusNotText));
            },
            None => {
                return Err(violation(Violation::StatusAbsent));
            },
        };
        if text_is(status, "ok") {
            let mut found: Option<&JsonValue> = None;
            let special_keys: [&str; 4] = ["__array", "__bool", "__string", "__number"];
            let mut i: usize = 0;
            while i < 4
                invariant
                    i <= 4,
                    special_keys@.len() == 4,
                    forall|j: int| 0 <= j < 4 ==> special_keys@[j]@ == reserved_keys()[j],
                    reserved_count(self@, i as int) <= 1,
                    match found {
                        Some(value) => reserved_count(self@, i as int) == 1 && value@
                            == self@[first_reserved_key(self@)],
                        None => reserved_count(self@, i as int) == 0 && forall|j: int|
                            0 <= j < i ==> !self@.contains_key(#[trigger] reserved_keys()[j]),
                    },
                    decoded(self@) == (if reserved_count(self@, 4) > 1 {
                        Decoded::Malformed(Violation::SeveralReservedKeys)
                    } else if reserved_count(self@, 4) == 1 {
                        Decoded::Value(self@[first_reserved_key(self@)])
                    } else if self@.remove(status_key()) == Map::<Seq<char>, JsonModel>::empty() {
                        Decoded::Value(JsonModel::Null)
                    } else {
                        Decoded::Value(JsonModel::Object(self@.remove(status_key())))
                    }),
                decreases 4 - i,
            {
                match self.get(special_keys[i]) {
                    Some(value) => {
                        if found.is_some() {
                            proof {
                                lemma_reserved_count_grows(self@, i + 1, 4);
                            }
                            return Err(violation(Violation::SeveralReservedKeys));
                        }
                        proof {
                            assert(reserved_keys()[0] == "__array"@);
                            assert(reserved_keys()[1] == "__bool"@);
                            assert(reserved_keys()[2] == "__string"@);
                            assert(reserved_keys()[3] == "__number"@);
                        }
                        found = Some(value);
                    },
                    None => {},
                }
                i += 1;
            }
            match found {
                Some(value) => Ok(value.duplicate()),
                None => {
                    let mut dict = self.duplicate();
                    dict.remove("status");
                    if dict.is_empty() {
                        Ok(JsonValue::Null)
                    } else {
                        Ok(JsonValue::Object(dict))
                    }
                },
            }
        } else if text_is(status, "err") {
            match self.get("trace") {
                Some(JsonValue::String(trace)) => {
                    let mut ex = exception("", "", ENVELOPE_SITE, 0, 0);
                    ex.set_caused_by(Cause::Message(trace.clone()));
                    proof {
                        reveal_strlit("");
                        assert(""@ =~= Seq::<char>::empty());
                    }
                    Err(ex)
                },
                Some(_) => Err(violation(Violation::TraceNotText)),
                None => Err(violation(Violation::TraceAbsent)),
            }
        } else {
            Err(violation(Violation::StatusUnknown))
        }
    }
}

proof fn lemma_reserved_count_grows(entries: Map<Seq<char>, JsonModel>, from: int, to: int)
    requires
        0 <= from <= to,
    ensures
        0 <= reserved_count(entries, from) <= reserved_count(entries, to),
    decreases to,
{
    if from < to {
        lemma_reserved_count_grows(entries, from, to - 1);
    } else if from > 0 {
        lemma_reserved_count_grows(entries, from - 1, from - 1);
    }
}

/// Wraps the payload of a success into a status envelope.
///
/// An object payload contributes its own fields; it is refused, as a format
/// violation, where one of its keys is `status` or a reserved singleton key.
/// Any other payload travels under the reserved key of its kind, and `null`
/// leaves the envelope without a payload.
pub fn encode_success(value: JsonValue) -> (out: Outcome<JsonDict>)
    ensures
        match success_envelope(value@) {
            Some(envelope) => {
                &&& out is Ok
                &&& out->Ok_0@ == envelope
                &&& decoded(envelope) == Decoded::Value(read_back(value@))
            },
            None => out is Err && out->Err_0@ == violation_failure(
                Violation::PayloadUsesEnvelopeKey,
            ),
        },
{
    proof {
        lemma_envelope_keys_differ();
        reveal_with_fuel(reserved_count, 5);
        if success_envelope(value@) is Some {
            lemma_success_round_trip(value@);
        }
    }
    let ok = JsonValue::String(String::from_str("ok"));
    match value {
        JsonValue::Object(dict) => {
            if dict.contains_key("status") || dict.contains_key("__array") || dict.contains_key(
                "__bool",
            ) || dict.contains_key("__string") || dict.contains_key("__number") {
                return Err(violation(Violation::PayloadUsesEnvelopeKey));
            }
            let mut envelope = dict;
            envelope.insert(String::from_str("status"), ok);
            Ok(envelope)
        },
        JsonValue::Null => {
            let mut envelope = JsonDict::new();
            envelope.insert(String::from_str("status"), ok);
            Ok(envelope)
        },
        other => {
            let key = match &other {
                JsonValue::Array(_) => "__array",
                JsonValue::Bool(_) => "__bool",
                JsonValue::String(_) => "__string",
                _ => "__number",
            };
            let mut envelope = JsonDict::new();
            envelope.insert(String::from_str("status"), ok);
            envelope.insert(String::from_str(key), other);
            Ok(envelope)
        },
    }
}

/// Wraps a failure into a status envelope: its rendered chain of causes
/// travels under `trace`.
pub fn encode_failure(ex: &Exception) -> (envelope: JsonDict)
    ensures
        envelope@ == failure_envelope(ex@.render()),
        decoded(envelope@) == Decoded::Failure(ex@.render()),
{
    proof {
        lemma_failure_round_trip(ex@);
    }
    let mut envelope = JsonDict::new();
    envelope.insert(String::from_str("status"), JsonValue::String(String::from_str("err")));
    envelope.insert(String::from_str("trace"), JsonValue::String(ex.render()));
    envelope
}

/// What the envelope of a success with payload `value` is read back as:
/// `value` itself, but for the object without entries, whose envelope is that
/// of `null`.
pub open spec fn read_back(value: JsonModel) -> JsonModel {
    if value == JsonModel::Object(Map::<Seq<char>, JsonModel>::empty()) {
        JsonModel::Null
    } else {
        value
    }
}

/// Every payload that fits into an envelope is read back from it as
/// [`read_back`] says.
pub proof fn lemma_success_round_trip(value: JsonModel)
    requires
        success_envelope(value) is Some,
    ensures
        decoded(success_envelope(value)->0) == Decoded::Value(read_back(value)),
{
    lemma_envelope_keys_differ();
    reveal_with_fuel(reserved_count, 5);
    match value {
        JsonModel::Object(entries) => {
            let envelope = entries.insert(status_key(), JsonModel::String("ok"@));
            assert(envelope.remove(status_key()) =~= entries);
            if entries != Map::<Seq<char>, JsonModel>::empty() {
                lemma_object_round_trip(entries);
            }
        },
        _ => {
            lemma_scalar_round_trip(value);
        },
    }
}

/// An object payload that has entries and stays clear of the envelope's own
/// keys comes back from its envelope unchanged.
pub proof fn lemma_object_round_trip(entries: Map<Seq<char>, JsonModel>)
    requires
        !uses_envelope_key(entries),
        entries != Map::<Seq<char>, JsonModel>::empty(),
    ensures
        success_envelope(JsonModel::Object(entries)) is Some,
        decoded(success_envelope(JsonModel::Object(entries))->0) == Decoded::Value(
            JsonModel::Object(entries),
        ),
{
    lemma_envelope_keys_differ();
    reveal_with_fuel(reserved_count, 5);
    let envelope = entries.insert(status_key(), JsonModel::String("ok"@));
    assert(envelope.remove(status_key()) =~= entries);
}

/// A payload that is no object (an array, a boolean, a string, a number or
/// `null`) comes back from its envelope unchanged.
pub proof fn lemma_scalar_round_trip(value: JsonModel)
    requires
        !(value is Object),
    ensures
        success_envelope(value) is Some,
        decoded(success_envelope(value)->0) == Decoded::Value(value),
{
    lemma_envelope_keys_differ();
    reveal_with_fuel(reserved_count, 5);
    let envelope = success_envelope(value)->0;
    if value is Null {
        assert(envelope.remove(status_key()) =~= Map::<Seq<char>, JsonModel>::empty());
    }
}

/// The envelope of a failure is read back as a failure whose trace is the
/// rendering of the exception that went in.
pub proof fn lemma_failure_round_trip(ex: ExceptionView)
    ensures
        decoded(failure_envelope(ex.render())) == Decoded::Failure(ex.render()),
        remote_failure(ex.render()).cause == Some(CauseView::Message(ex.render())),
{
    lemma_envelope_keys_differ();
}

/// An envelope whose `status` is `"ok"` and that holds two different reserved
/// keys is a format violation.
pub proof fn lemma_two_reserved_keys_collide(
    entries: Map<Seq<char>, JsonModel>,
    first: Seq<char>,
    second: Seq<char>,
)
    requires
        entries.contains_key(status_key()),
        entries[status_key()] == JsonModel::String("ok"@),
        is_reserved_key(first),
        is_reserved_key(second),
        first != second,
        entries.contains_key(first),
        entries.contains_key(second),
    ensures
        decoded(entries) == Decoded::Malformed(Violation::SeveralReservedKeys),
{
    lemma_envelope_keys_differ();
    reveal_with_fuel(reserved_count, 5);
}

/// An envelope whose `status` is a string other than `"ok"` and `"err"` is a
/// format violation, and so is one whose `status` is `"err"` without a `trace`.
pub proof fn lemma_malformed_status(entries: Map<Seq<char>, JsonModel>, status: Seq<char>)
    requires
        entries.contains_key(status_key()),
        entries[status_key()] == JsonModel::String(status),
    ensures
        status != "ok"@ && status != "err"@ ==> decoded(entries) == Decoded::Malformed(
            Violation::StatusUnknown,
        ),
        status == "err"@ && !entries.contains_key(trace_key()) ==> decoded(entries)
            == Decoded::Malformed(Violation::TraceAbsent),
{
    lemma_envelope_keys_differ();
}

} // verus!
