//! The query dispatcher: from a query to its response.
//!
//! A datagram that is no message gets no response, nor does a message
//! without a question. Of the questions of a message the first is
//! answered: with the record that the store holds for the name and the
//! type, `NXDomain` where it holds none, `ServFail` where it refuses the
//! lookup, and `NotImp` where the type is none that the store knows.
//!
//! A worker goes through the states of [`State`]. Receiving and sending
//! are the caller's part: it hands in what happened as an [`Event`] and
//! does what the new state asks for.

use crate::db::record::{RecordClass, RecordType, RecordView, ResourceRecord, ZoneView};
use crate::db::{
    first_answer, resource_lookup, zone_index, zone_ttl_of, Category, Database,
};
use crate::wire::codec::{decode, decoded, encode, encoded, MAX_UDP_PAYLOAD};
use crate::wire::header::{EncodeError, Header, ResponseCode};
use crate::wire::message::{question_views, Message, MessageView, QuestionView};
use vstd::prelude::*;

verus! {

/// The header of the response to a request with header `h`: the same
/// identifier and operation, marked as an authoritative response.
pub open spec fn response_header(h: Header, rcode: ResponseCode) -> Header {
    Header {
        id: h.id,
        response: true,
        opcode: h.opcode,
        authoritative: true,
        truncated: false,
        recursion_desired: false,
        recursion_available: false,
        rcode,
    }
}

/// The status of the response to the question `q`.
pub open spec fn response_code(zones: Seq<ZoneView>, q: QuestionView) -> ResponseCode {
    match RecordType::with_code(q.qtype) {
        None => ResponseCode::NotImp,
        Some(t) => match resource_lookup(zones, q.name, t) {
            Ok(Some(_)) => ResponseCode::NoError,
            Ok(None) => ResponseCode::NXDomain,
            Err(_) => ResponseCode::ServFail,
        },
    }
}

/// The time to live of an answer for `name`: the default of the zone
/// with that origin where the store gives it, else `ttl`.
pub open spec fn answer_ttl(zones: Seq<ZoneView>, name: Seq<char>, ttl: u32) -> u32 {
    match zone_ttl_of(zones, name) {
        Some(t) => t,
        None => ttl,
    }
}

/// The answer section of the response to the question `q`: the record
/// found, under the name asked for and with the time to live of its
/// zone.
pub open spec fn response_answers(zones: Seq<ZoneView>, q: QuestionView, ttl: u32) -> Seq<RecordView> {
    match RecordType::with_code(q.qtype) {
        None => Seq::empty(),
        Some(t) => match resource_lookup(zones, q.name, t) {
            Ok(Some(data)) => seq![
                RecordView {
                    name: q.name,
                    ttl: answer_ttl(zones, q.name, ttl),
                    class: RecordClass::IN,
                    data,
                },
            ],
            _ => Seq::empty(),
        },
    }
}

/// The response to a request, where it has a question.
pub open spec fn response_to(zones: Seq<ZoneView>, request: MessageView, ttl: u32) -> Option<
    MessageView,
> {
    if request.questions.len() == 0 {
        None
    } else {
        let q = request.questions[0];
        Some(
            MessageView {
                header: response_header(request.header, response_code(zones, q)),
                questions: seq![q],
                answers: response_answers(zones, q, ttl),
                authority: Seq::empty(),
                additional: Seq::empty(),
            },
        )
    }
}

/// Answers the first question of `request` from the store `db`. The
/// answer carries the default time to live of its zone; `ttl` stands in
/// where the store gives none.
pub fn handle_message<D: Database>(db: &D, request: &Message, ttl: u32) -> (r: Option<Message>)
    ensures
        match response_to(db.zones(), request@, ttl) {
            Some(m) => r is Some && r->0@ == m,
            None => r is None,
        },
{
    if request.questions.len() == 0 {
        return None;
    }
    let question = request.questions[0].copy();
    assert(question@ == request@.questions[0]);
    let mut answers: Vec<ResourceRecord> = Vec::new();
    let rcode = match RecordType::from_code(question.qtype) {
        None => ResponseCode::NotImp,
        Some(t) => match db.lookup_resource_record(question.name.as_str(), t) {
            Ok(Some(data)) => {
                let ttl = match db.zone_ttl(question.name.as_str()) {
                    Some(t) => t,
                    None => ttl,
                };
                answers.push(
                    ResourceRecord {
                        name: question.name.clone(),
                        ttl,
                        class: RecordClass::IN,
                        data: data.copy(),
                    },
                );
                ResponseCode::NoError
            },
            Ok(None) => ResponseCode::NXDomain,
            Err(_) => ResponseCode::ServFail,
        },
    };
    let header = Header {
        id: request.header.id,
        response: true,
        opcode: request.header.opcode,
        authoritative: true,
        truncated: false,
        recursion_desired: false,
        recursion_available: false,
        rcode,
    };
    let mut questions = Vec::new();
    questions.push(question);
    let response = Message {
        header,
        questions,
        answers,
        authority: Vec::new(),
        additional: Vec::new(),
    };
    assert(response@.questions =~= seq![request@.questions[0]]);
    assert(response@.answers =~= response_answers(db.zones(), request@.questions[0], ttl));
    assert(response@.authority =~= Seq::empty());
    assert(response@.additional =~= Seq::empty());
    Some(response)
}

/// The message without its records and marked as truncated.
pub open spec fn truncated_form(m: MessageView) -> MessageView {
    MessageView {
        header: Header {
            id: m.header.id,
            response: m.header.response,
            opcode: m.header.opcode,
            authoritative: m.header.authoritative,
            truncated: true,
            recursion_desired: m.header.recursion_desired,
            recursion_available: m.header.recursion_available,
            rcode: m.header.rcode,
        },
        questions: m.questions,
        answers: Seq::empty(),
        authority: Seq::empty(),
        additional: Seq::empty(),
    }
}

/// The message without its records and with the status `ServFail`.
pub open spec fn failure_form(m: MessageView) -> MessageView {
    MessageView {
        header: Header {
            id: m.header.id,
            response: m.header.response,
            opcode: m.header.opcode,
            authoritative: m.header.authoritative,
            truncated: m.header.truncated,
            recursion_desired: m.header.recursion_desired,
            recursion_available: m.header.recursion_available,
            rcode: ResponseCode::ServFail,
        },
        questions: m.questions,
        answers: Seq::empty(),
        authority: Seq::empty(),
        additional: Seq::empty(),
    }
}

/// The octets sent for a response: those of the response where it fits a
/// datagram; those of its truncated form where it is too long; those of
/// its failure form where it has a part without wire form; none where
/// the form fallen back on cannot be written either.
pub open spec fn reply_bytes(m: MessageView) -> Option<Seq<u8>> {
    match encoded(m, MAX_UDP_PAYLOAD as nat) {
        Ok(b) => Some(b),
        Err(EncodeError::BufferOverflow) => match encoded(truncated_form(m), MAX_UDP_PAYLOAD as nat) {
            Ok(b) => Some(b),
            Err(_) => None,
        },
        Err(EncodeError::Unencodable) => match encoded(failure_form(m), MAX_UDP_PAYLOAD as nat) {
            Ok(b) => Some(b),
            Err(_) => None,
        },
    }
}

/// Writes a response, falling back on a shorter form where it must.
pub fn encode_reply(response: Message) -> (r: Option<Vec<u8>>)
    ensures
        match reply_bytes(response@) {
            Some(b) => r is Some && r->0@ == b,
            None => r is None,
        },
{
    let fallback = match encode(&response) {
        Ok(b) => {
            return Some(b);
        },
        Err(EncodeError::BufferOverflow) => {
            let mut header = response.header;
            header.truncated = true;
            header
        },
        Err(EncodeError::Unencodable) => {
            let mut header = response.header;
            header.rcode = ResponseCode::ServFail;
            header
        },
    };
    let short = Message {
        header: fallback,
        questions: response.questions,
        answers: Vec::new(),
        authority: Vec::new(),
        additional: Vec::new(),
    };
    assert(short@.answers =~= Seq::empty());
    assert(short@.authority =~= Seq::empty());
    assert(short@.additional =~= Seq::empty());
    match encode(&short) {
        Ok(b) => Some(b),
        Err(_) => None,
    }
}

/// The octets to send back for a datagram with the octets `bytes`, if any.
pub open spec fn reply_to(zones: Seq<ZoneView>, bytes: Seq<u8>, ttl: u32) -> Option<Seq<u8>> {
    match decoded(bytes) {
        Ok(request) => match response_to(zones, request, ttl) {
            Some(response) => reply_bytes(response),
            None => None,
        },
        _ => None,
    }
}

/// Answers one datagram: reads it, answers its first question from the
/// store `db` and writes the response.
pub fn process_packet<D: Database>(db: &D, bytes: &[u8], ttl: u32) -> (r: Option<Vec<u8>>)
    ensures
        match reply_to(db.zones(), bytes@, ttl) {
            Some(b) => r is Some && r->0@ == b,
            None => r is None,
        },
{
    let request = match decode(bytes) {
        Ok(m) => m,
        Err(_) => {
            return None;
        },
    };
    match handle_message(db, &request, ttl) {
        Some(response) => encode_reply(response),
        None => None,
    }
}

/// A query for a resource type at a name that is the origin of no zone is
/// answered with `NXDomain` and without a record.
pub proof fn lemma_unknown_name_is_nxdomain(zones: Seq<ZoneView>, request: MessageView, ttl: u32)
    requires
        request.questions.len() > 0,
        RecordType::with_code(request.questions[0].qtype) is Some,
        RecordType::with_code(request.questions[0].qtype)->0.category() == Category::Resource,
        zone_index(zones, request.questions[0].name, 0) is None,
    ensures
        response_to(zones, request, ttl) is Some,
        response_to(zones, request, ttl)->0.header.rcode == ResponseCode::NXDomain,
        response_to(zones, request, ttl)->0.answers.len() == 0,
{
}

/// A query for a resource type at the origin of a zone that holds a
/// record of that type for its origin is answered with `NoError` and with
/// exactly one record, which holds the data of the first such record and
/// the default time to live of the zone.
pub proof fn lemma_known_record_is_answered(
    zones: Seq<ZoneView>,
    request: MessageView,
    ttl: u32,
    i: int,
    j: int,
)
    requires
        request.questions.len() > 0,
        RecordType::with_code(request.questions[0].qtype) is Some,
        RecordType::with_code(request.questions[0].qtype)->0.category() == Category::Resource,
        zone_index(zones, request.questions[0].name, 0) == Some(i),
        first_answer(
            zones[i].records,
            zones[i].origin,
            RecordType::with_code(request.questions[0].qtype)->0,
            0,
        ) == Some(j),
    ensures
        response_to(zones, request, ttl) is Some,
        response_to(zones, request, ttl)->0.header.rcode == ResponseCode::NoError,
        response_to(zones, request, ttl)->0.answers == seq![
            RecordView {
                name: request.questions[0].name,
                ttl: zones[i].ttl,
                class: RecordClass::IN,
                data: zones[i].records[j].data,
            },
        ],
{
}

/// Every response echoes the identifier and the operation of the request,
/// is marked as an authoritative response and repeats the first question.
pub proof fn lemma_response_echoes_request(zones: Seq<ZoneView>, request: MessageView, ttl: u32)
    requires
        request.questions.len() > 0,
    ensures
        response_to(zones, request, ttl) is Some,
        response_to(zones, request, ttl)->0.header.id == request.header.id,
        response_to(zones, request, ttl)->0.header.opcode == request.header.opcode,
        response_to(zones, request, ttl)->0.header.response,
        response_to(zones, request, ttl)->0.header.authoritative,
        response_to(zones, request, ttl)->0.questions == seq![request.questions[0]],
{
}


/// Where a worker stands.
#[derive(Debug, PartialEq, Eq, Clone)]
pub enum State {
    /// Not started yet.
    Idle,
    /// Waiting for a datagram.
    Receiving,
    /// Holding the octets of a datagram that are to be read.
    Decoding(Vec<u8>),
    /// Holding a request that is to be answered from the store.
    Resolving(Message),
    /// Holding a response that is to be written.
    Encoding(Message),
    /// Holding the octets that are to be sent to where the datagram came from.
    Sending(Vec<u8>),
    /// Shut down, for good.
    Stopped,
}

/// What a [`State`] holds, as mathematical values.
pub enum StateView {
    Idle,
    Receiving,
    Decoding(Seq<u8>),
    Resolving(MessageView),
    Encoding(MessageView),
    Sending(Seq<u8>),
    Stopped,
}

impl View for State {
    type V = StateView;

    open spec fn view(&self) -> StateView {
        match *self {
            State::Idle => StateView::Idle,
            State::Receiving => StateView::Receiving,
            State::Decoding(b) => StateView::Decoding(b@),
            State::Resolving(m) => StateView::Resolving(m@),
            State::Encoding(m) => StateView::Encoding(m@),
            State::Sending(b) => StateView::Sending(b@),
            State::Stopped => StateView::Stopped,
        }
    }
}

/// What happened to a worker.
#[derive(Debug, PartialEq, Eq, Clone)]
pub enum Event {
    /// The worker was started.
    Start,
    /// A datagram with these octets came.
    Datagram(Vec<u8>),
    /// Nothing from outside: the worker goes on with what it holds.
    Step,
    /// The octets were handed to the socket, or the socket refused them.
    Sent,
    /// The server shuts down.
    Shutdown,
}

/// What an [`Event`] holds, as mathematical values.
pub enum EventView {
    Start,
    Datagram(Seq<u8>),
    Step,
    Sent,
    Shutdown,
}

impl View for Event {
    type V = EventView;

    open spec fn view(&self) -> EventView {
        match *self {
            Event::Start => EventView::Start,
            Event::Datagram(b) => EventView::Datagram(b@),
            Event::Step => EventView::Step,
            Event::Sent => EventView::Sent,
            Event::Shutdown => EventView::Shutdown,
        }
    }
}

/// The state after an event. A shutdown stops the worker in every state,
/// and a stopped worker stays stopped. An event that the state does not
/// wait for leaves the state as it is.
pub open spec fn next_state(zones: Seq<ZoneView>, state: StateView, event: EventView, ttl: u32) -> StateView {
    match (state, event) {
        (_, EventView::Shutdown) => StateView::Stopped,
        (StateView::Idle, EventView::Start) => StateView::Receiving,
        (StateView::Receiving, EventView::Datagram(bytes)) => StateView::Decoding(bytes),
        (StateView::Decoding(bytes), EventView::Step) => match decoded(bytes) {
            Ok(request) => StateView::Resolving(request),
            Err(_) => StateView::Receiving,
        },
        (StateView::Resolving(request), EventView::Step) => match response_to(zones, request, ttl) {
            Some(response) => StateView::Encoding(response),
            None => StateView::Receiving,
        },
        (StateView::Encoding(response), EventView::Step) => match reply_bytes(response) {
            Some(bytes) => StateView::Sending(bytes),
            None => StateView::Receiving,
        },
        (StateView::Sending(_), EventView::Sent) => StateView::Receiving,
        (s, _) => s,
    }
}

/// Takes a worker from one state to the next.
pub fn next<D: Database>(db: &D, state: State, event: Event, ttl: u32) -> (r: State)
    ensures
        r@ == next_state(db.zones(), state@, event@, ttl),
{
    match event {
        Event::Shutdown => State::Stopped,
        Event::Start => match state {
            State::Idle => State::Receiving,
            other => other,
        },
        Event::Datagram(bytes) => match state {
            State::Receiving => State::Decoding(bytes),
            other => other,
        },
        Event::Sent => match state {
            State::Sending(_) => State::Receiving,
            other => other,
        },
        Event::Step => match state {
            State::Decoding(bytes) => match decode(bytes.as_slice()) {
                Ok(request) => State::Resolving(request),
                Err(_) => State::Receiving,
            },
            State::Resolving(request) => match handle_message(db, &request, ttl) {
                Some(response) => State::Encoding(response),
                None => State::Receiving,
            },
            State::Encoding(response) => match encode_reply(response) {
                Some(bytes) => State::Sending(bytes),
                None => State::Receiving,
            },
            other => other,
        },
    }
}

/// A stopped worker stays stopped, and a shutdown stops a worker in
/// whatever state it is.
pub proof fn lemma_stopped_for_good(zones: Seq<ZoneView>, state: StateView, event: EventView, ttl: u32)
    ensures
        next_state(zones, StateView::Stopped, event, ttl) == StateView::Stopped,
        next_state(zones, state, EventView::Shutdown, ttl) == StateView::Stopped,
{
}

/// Three steps take a worker from the octets of a datagram to the octets
/// of the reply, or back to receiving where there is no reply: the same
/// as [`process_packet`] gives.
pub proof fn lemma_three_steps_reply(zones: Seq<ZoneView>, bytes: Seq<u8>, ttl: u32)
    ensures
        next_state(
            zones,
            next_state(
                zones,
                next_state(zones, StateView::Decoding(bytes), EventView::Step, ttl),
                EventView::Step,
                ttl,
            ),
            EventView::Step,
            ttl,
        ) == match reply_to(zones, bytes, ttl) {
            Some(reply) => StateView::Sending(reply),
            None => StateView::Receiving,
        },
{
}

} // verus!
