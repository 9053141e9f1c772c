//! The three remote procedures: what a client sends for each, and how a
//! service answers what it is sent.
//!
//! Nothing here touches the network. A client describes the call to make;
//! a service turns the bytes of a request into the bytes of its answer.

use crate::errors::Error;
use crate::kv::{Pair, Store};
use crate::mumpb::{
    is_message, spec_decode_op_request, spec_decode_op_response, spec_encode_op_request,
    spec_encode_op_response, spec_is_message, spec_kvs, spec_wrap, ConfRequest, ConfResponse,
    Done, OpRequest, OpRequestModel, OpResponse, RaftMessage,
};
use crate::names::bytes_eq;
use crate::raftpb::MAX_PAYLOAD;
use crate::layout::copy_of;
use crate::wire::spec_conf_change_bytes;
use vstd::prelude::*;

verus! {

/// One of the three remote procedures.
#[derive(Clone, Copy, Debug, PartialEq, Eq, Structural)]
pub enum Method {
    /// A client operation.
    Op,
    /// A membership change.
    Conf,
    /// A consensus message from a peer.
    Raft,
}

/// The path of a procedure: `/mumpb.Mum/` and its name.
pub open spec fn spec_method_path(m: Method) -> Seq<u8> {
    let prefix = seq![47u8, 109u8, 117u8, 109u8, 112u8, 98u8, 46u8, 77u8, 117u8, 109u8, 47u8];
    match m {
        Method::Op => prefix + seq![79u8, 112u8],
        Method::Conf => prefix + seq![67u8, 111u8, 110u8, 102u8],
        Method::Raft => prefix + seq![82u8, 97u8, 102u8, 116u8],
    }
}

/// The procedure with the path `path`, if there is one.
pub open spec fn spec_method_of_path(path: Seq<u8>) -> Option<Method> {
    if path == spec_method_path(Method::Op) {
        Some(Method::Op)
    } else if path == spec_method_path(Method::Conf) {
        Some(Method::Conf)
    } else if path == spec_method_path(Method::Raft) {
        Some(Method::Raft)
    } else {
        None
    }
}

impl Method {
    /// The path of the procedure.
    pub fn path(self) -> (p: Vec<u8>)
        ensures
            p@ == spec_method_path(self),
    {
        let mut p = vec![47u8, 109u8, 117u8, 109u8, 112u8, 98u8, 46u8, 77u8, 117u8, 109u8, 47u8];
        match self {
            Method::Op => {
                p.push(79u8);
                p.push(112u8);
            },
            Method::Conf => {
                p.push(67u8);
                p.push(111u8);
                p.push(110u8);
                p.push(102u8);
            },
            Method::Raft => {
                p.push(82u8);
                p.push(97u8);
                p.push(102u8);
                p.push(116u8);
            },
        }
        assert(p@ =~= spec_method_path(self));
        p
    }

    /// The procedure with the path `path`.
    pub fn of_path(path: &[u8]) -> (m: Option<Method>)
        ensures
            m == spec_method_of_path(path@),
    {
        let op = Method::Op.path();
        let conf = Method::Conf.path();
        let raft = Method::Raft.path();
        if bytes_eq(path, op.as_slice()) {
            Some(Method::Op)
        } else if bytes_eq(path, conf.as_slice()) {
            Some(Method::Conf)
        } else if bytes_eq(path, raft.as_slice()) {
            Some(Method::Raft)
        } else {
            None
        }
    }
}

/// What a call asks for beyond its request.
#[derive(Clone, Copy, Debug, PartialEq, Eq, Structural)]
pub struct CallOption {
    /// The time after which the call is given up, in milliseconds.
    pub timeout_ms: Option<u64>,
    /// Whether the call waits for the connection instead of failing at once.
    pub wait_for_ready: bool,
}

impl CallOption {
    /// The options of a call that asks for nothing special.
    pub open spec fn spec_default() -> CallOption {
        CallOption { timeout_ms: None, wait_for_ready: false }
    }

    /// The options of a call that asks for nothing special.
    pub fn default() -> (opt: CallOption)
        ensures
            opt == CallOption::spec_default(),
    {
        CallOption { timeout_ms: None, wait_for_ready: false }
    }
}

/// A call as contracts see it.
pub struct CallModel {
    pub address: Seq<u8>,
    pub method: Method,
    pub request: Seq<u8>,
    pub option: CallOption,
    pub blocking: bool,
}

/// A call to make: where to, which procedure, the encoded request, the
/// options, and whether the caller waits for the answer.
#[derive(Clone, Debug, PartialEq)]
pub struct Call {
    pub address: Vec<u8>,
    pub method: Method,
    pub request: Vec<u8>,
    pub option: CallOption,
    pub blocking: bool,
}

impl View for Call {
    type V = CallModel;

    open spec fn view(&self) -> CallModel {
        CallModel {
            address: self.address@,
            method: self.method,
            request: self.request@,
            option: self.option,
            blocking: self.blocking,
        }
    }
}

/// The client of one server.
#[derive(Debug)]
pub struct MumClient {
    address: Vec<u8>,
}

impl MumClient {
    /// The address of the server.
    pub closed spec fn spec_address(&self) -> Seq<u8> {
        self.address@
    }

    /// The call of `method` with the encoded request `request`.
    pub open spec fn spec_call(
        &self,
        method: Method,
        request: Seq<u8>,
        option: CallOption,
        blocking: bool,
    ) -> CallModel {
        CallModel { address: self.spec_address(), method, request, option, blocking }
    }

    /// A client of the server at `address`.
    pub fn new(address: Vec<u8>) -> (c: MumClient)
        ensures
            c.spec_address() == address@,
    {
        MumClient { address }
    }

    /// The address of the server.
    pub fn address(&self) -> (a: &Vec<u8>)
        ensures
            a@ == self.spec_address(),
    {
        &self.address
    }

    fn call(&self, method: Method, request: Vec<u8>, option: CallOption, blocking: bool) -> (c: Call)
        ensures
            c@ == self.spec_call(method, request@, option, blocking),
    {
        Call { address: copy_of(self.address.as_slice()), method, request, option, blocking }
    }

    /// The call that sends `req` with the options `opt` and waits for the
    /// answer.
    pub fn op_opt(&self, req: &OpRequest, opt: CallOption) -> (c: Call)
        ensures
            c@ == self.spec_call(Method::Op, spec_encode_op_request(req@), opt, true),
    {
        self.call(Method::Op, req.write_to_bytes(), opt, true)
    }

    /// The call that sends `req` and waits for the answer.
    pub fn op(&self, req: &OpRequest) -> (c: Call)
        ensures
            c@ == self.spec_call(
                Method::Op,
                spec_encode_op_request(req@),
                CallOption::spec_default(),
                true,
            ),
    {
        self.op_opt(req, CallOption::default())
    }

    /// The call that sends `req` with the options `opt` without waiting.
    pub fn op_async_opt(&self, req: &OpRequest, opt: CallOption) -> (c: Call)
        ensures
            c@ == self.spec_call(Method::Op, spec_encode_op_request(req@), opt, false),
    {
        self.call(Method::Op, req.write_to_bytes(), opt, false)
    }

    /// The call that sends `req` without waiting.
    pub fn op_async(&self, req: &OpRequest) -> (c: Call)
        ensures
            c@ == self.spec_call(
                Method::Op,
                spec_encode_op_request(req@),
                CallOption::spec_default(),
                false,
            ),
    {
        self.op_async_opt(req, CallOption::default())
    }

    /// The answer to an operation, from its bytes.
    pub fn op_reply(reply: &[u8]) -> (out: Result<OpResponse, Error>)
        ensures
            match out {
                Ok(r) => spec_decode_op_response(reply@) == Some(spec_kvs(r.kvs@)),
                Err(e) => e is Protbuf && spec_decode_op_response(reply@) is None,
            },
    {
        OpResponse::parse_from_bytes(reply)
    }

    /// The call that sends `req` with the options `opt` and waits for the
    /// answer. Fails with `Error::Protbuf` exactly where the context of the
    /// change is too large to be encoded.
    pub fn conf_opt(&self, req: &ConfRequest, opt: CallOption) -> (out: Result<Call, Error>)
        ensures
            match out {
                Ok(c) => c@ == self.spec_call(
                    Method::Conf,
                    spec_wrap(spec_conf_change_bytes(req.change@)),
                    opt,
                    true,
                ),
                Err(e) => e is Protbuf && req.change.context@.len() > MAX_PAYLOAD,
            },
    {
        let request = req.write_to_bytes()?;
        Ok(self.call(Method::Conf, request, opt, true))
    }

    /// The call that sends `req` and waits for the answer.
    pub fn conf(&self, req: &ConfRequest) -> (out: Result<Call, Error>)
        ensures
            match out {
                Ok(c) => c@ == self.spec_call(
                    Method::Conf,
                    spec_wrap(spec_conf_change_bytes(req.change@)),
                    CallOption::spec_default(),
                    true,
                ),
                Err(e) => e is Protbuf && req.change.context@.len() > MAX_PAYLOAD,
            },
    {
        self.conf_opt(req, CallOption::default())
    }

    /// The call that sends `req` with the options `opt` without waiting.
    pub fn conf_async_opt(&self, req: &ConfRequest, opt: CallOption) -> (out: Result<Call, Error>)
        ensures
            match out {
                Ok(c) => c@ == self.spec_call(
                    Method::Conf,
                    spec_wrap(spec_conf_change_bytes(req.change@)),
                    opt,
                    false,
                ),
                Err(e) => e is Protbuf && req.change.context@.len() > MAX_PAYLOAD,
            },
    {
        let request = req.write_to_bytes()?;
        Ok(self.call(Method::Conf, request, opt, false))
    }

    /// The call that sends `req` without waiting.
    pub fn conf_async(&self, req: &ConfRequest) -> (out: Result<Call, Error>)
        ensures
            match out {
                Ok(c) => c@ == self.spec_call(
                    Method::Conf,
                    spec_wrap(spec_conf_change_bytes(req.change@)),
                    CallOption::spec_default(),
                    false,
                ),
                Err(e) => e is Protbuf && req.change.context@.len() > MAX_PAYLOAD,
            },
    {
        self.conf_async_opt(req, CallOption::default())
    }

    /// The call that sends `req` with the options `opt` and waits for the
    /// answer.
    pub fn raft_opt(&self, req: &RaftMessage, opt: CallOption) -> (c: Call)
        ensures
            c@ == self.spec_call(Method::Raft, spec_wrap(req.message@), opt, true),
    {
        self.call(Method::Raft, req.write_to_bytes(), opt, true)
    }

    /// The call that sends `req` and waits for the answer.
    pub fn raft(&self, req: &RaftMessage) -> (c: Call)
        ensures
            c@ == self.spec_call(
                Method::Raft,
                spec_wrap(req.message@),
                CallOption::spec_default(),
                true,
            ),
    {
        self.raft_opt(req, CallOption::default())
    }

    /// The call that sends `req` with the options `opt` without waiting.
    pub fn raft_async_opt(&self, req: &RaftMessage, opt: CallOption) -> (c: Call)
        ensures
            c@ == self.spec_call(Method::Raft, spec_wrap(req.message@), opt, false),
    {
        self.call(Method::Raft, req.write_to_bytes(), opt, false)
    }

    /// The call that sends `req` without waiting.
    pub fn raft_async(&self, req: &RaftMessage) -> (c: Call)
        ensures
            c@ == self.spec_call(
                Method::Raft,
                spec_wrap(req.message@),
                CallOption::spec_default(),
                false,
            ),
    {
        self.raft_async_opt(req, CallOption::default())
    }

    /// Whether `reply` is an answer without fields of its own, as the
    /// procedures `Conf` and `Raft` give.
    pub fn empty_reply(reply: &[u8]) -> (ok: bool)
        ensures
            ok == spec_is_message(reply@),
    {
        is_message(reply)
    }
}

/// What a server does for each of the three procedures.
pub trait Mum {
    /// The pairs that the server answers the operation `req` with when the
    /// store holds `pairs`.
    spec fn spec_answer(&self, pairs: Seq<Pair>, req: OpRequestModel) -> Seq<Pair>;

    /// Takes a consensus message from a peer.
    fn raft(&mut self, req: RaftMessage) -> Done;

    /// Takes a client operation; reads are answered from `store`.
    fn op(&mut self, store: &Store, req: OpRequest) -> (resp: OpResponse)
        ensures
            spec_kvs(resp.kvs@) == old(self).spec_answer(store.spec_pairs(), req@),
    ;

    /// Takes a membership change.
    fn conf(&mut self, req: ConfRequest) -> ConfResponse;
}

/// A service: a handler behind the paths of the three procedures.
pub struct Service<S: Mum> {
    pub handler: S,
}

/// The service that answers with `s`.
pub fn create_mum<S: Mum>(s: S) -> (service: Service<S>)
    ensures
        service.handler == s,
{
    Service { handler: s }
}

/// What a request for `path` needs to be accepted: a procedure of that
/// path, and bytes that encode a request of that procedure.
pub open spec fn spec_accepts(path: Seq<u8>, request: Seq<u8>) -> bool {
    match spec_method_of_path(path) {
        Some(Method::Op) => crate::mumpb::spec_decode_op_request(request) is Some,
        Some(Method::Conf) => crate::mumpb::spec_decode_conf_request(request) is Some,
        Some(Method::Raft) => crate::mumpb::spec_decode_raft_message(request) is Some,
        None => false,
    }
}

impl<S: Mum> Service<S> {
    /// Answers the request `request` for the procedure at `path`: decodes
    /// it, hands it to the handler, and encodes what the handler answers:
    /// the pairs for an operation, nothing for the other two procedures.
    /// Fails with `Error::UnknownMethod` exactly where no procedure has the
    /// path, and with `Error::Protbuf` exactly where one has and the bytes
    /// encode no request for it; the handler is then not called.
    pub fn call(&mut self, store: &Store, path: &[u8], request: &[u8]) -> (out: Result<
        Vec<u8>,
        Error,
    >)
        ensures
            match out {
                Ok(reply) => spec_accepts(path@, request@) && reply@ == (if spec_method_of_path(
                    path@,
                ) == Some(Method::Op) {
                    spec_encode_op_response(
                        old(self).handler.spec_answer(
                            store.spec_pairs(),
                            spec_decode_op_request(request@).unwrap(),
                        ),
                    )
                } else {
                    Seq::<u8>::empty()
                }),
                Err(Error::UnknownMethod(p)) => spec_method_of_path(path@) is None && p@ == path@
                    && final(self).handler == old(self).handler,
                Err(e) => e is Protbuf && spec_method_of_path(path@) is Some && !spec_accepts(
                    path@,
                    request@,
                ) && final(self).handler == old(self).handler,
            },
    {
        match Method::of_path(path) {
            Some(Method::Op) => {
                let req = OpRequest::parse_from_bytes(request)?;
                Ok(self.handler.op(store, req).write_to_bytes())
            },
            Some(Method::Conf) => {
                let req = ConfRequest::parse_from_bytes(request)?;
                let _ = self.handler.conf(req);
                Ok(Vec::new())
            },
            Some(Method::Raft) => {
                let req = RaftMessage::parse_from_bytes(request)?;
                let _ = self.handler.raft(req);
                Ok(Vec::new())
            },
            None => Err(Error::UnknownMethod(copy_of(path))),
        }
    }
}

} // verus!
