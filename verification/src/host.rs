//! Module plumbing: the package types exchanged with module workers, and
//! the dispatch table that owns one input channel per module. The channel
//! operations themselves are outside calls and stand behind trusted
//! wrappers; everything decided on their results is verified.

use crate::context::Context;
use crate::value::{SpecValue, Value};
use vstd::prelude::*;

verus! {

#[verifier::external_type_specification]
#[verifier::external_body]
#[verifier::reject_recursive_types(T)]
pub struct ExCrossbeamSender<T>(crossbeam::channel::Sender<T>);

#[verifier::external_type_specification]
#[verifier::external_body]
#[verifier::reject_recursive_types(T)]
pub struct ExOneshotSender<T>(tokio::sync::oneshot::Sender<T>);

#[verifier::external_type_specification]
#[verifier::external_body]
#[verifier::reject_recursive_types(T)]
pub struct ExOneshotReceiver<T>(tokio::sync::oneshot::Receiver<T>);

#[verifier::external_type_specification]
#[verifier::external_body]
pub struct ExRecvError(tokio::sync::oneshot::error::RecvError);

#[verifier::external_type_specification]
#[verifier::external_body]
pub struct ExDispatch(tracing::Dispatch);

#[verifier::external_type_specification]
#[verifier::external_body]
pub struct ExSpan(tracing::Span);

/// One invocation handed to a module worker: the context snapshot and the
/// one-shot channel for exactly one reply.
pub struct ModulePackage {
    pub context: Context,
    pub sender: tokio::sync::oneshot::Sender<Value>,
}

/// A root request delivered by the main module: its data, the one-shot
/// reply channel, and bookkeeping for tracing. The ghost field records
/// the value handed to the reply channel, so contracts can speak of what
/// was delivered.
pub struct Package {
    pub send: Option<tokio::sync::oneshot::Sender<Value>>,
    pub request_data: Option<Value>,
    pub origin: usize,
    pub span: Option<tracing::Span>,
    pub dispatch: Option<tracing::Dispatch>,
    pub delivered: Ghost<Option<SpecValue>>,
}

impl Package {
    /// A fresh package: nothing delivered yet.
    pub fn new(
        send: Option<tokio::sync::oneshot::Sender<Value>>,
        request_data: Option<Value>,
        origin: usize,
        span: Option<tracing::Span>,
        dispatch: Option<tracing::Dispatch>,
    ) -> (r: Package)
        ensures
            r.send == send,
            r.request_data == request_data,
            r.origin == origin,
            r.delivered@ is None,
    {
        Package { send, request_data, origin, span, dispatch, delivered: Ghost(None) }
    }
    /// The request data, if the package carries any.
    pub fn get_data(&self) -> (r: Option<&Value>)
        ensures
            r is Some <==> self.request_data is Some,
            r matches Some(v) ==> self.request_data matches Some(d) && v@ == d@,
    {
        self.request_data.as_ref()
    }

    /// Fulfill the package's reply channel, once; later calls do nothing.
    /// Relies on tokio's one-shot `Sender::send` for the delivery. The
    /// ghost record notes the value handed over, when a channel was still
    /// there to take it.
    #[verifier::external_body]
    pub fn send(&mut self, response_data: Value)
        ensures
            final(self).send is None,
            final(self).request_data == old(self).request_data,
            final(self).origin == old(self).origin,
            final(self).span == old(self).span,
            final(self).dispatch == old(self).dispatch,
            final(self).delivered@ == (if old(self).send is Some {
                Some(response_data@)
            } else {
                old(self).delivered@
            }),
    {
        if let Some(tx) = self.send.take() {
            let _ = tx.send(response_data);
        }
    }
}

/// What a module worker setup hands a module: its dense id, the one-shot
/// handshake channel, the engine sender when this module is the main one,
/// its configuration value, and the process's tracing dispatch.
pub struct ModuleSetup {
    pub id: usize,
    pub setup_sender: tokio::sync::oneshot::Sender<
        Option<crossbeam::channel::Sender<ModulePackage>>,
    >,
    pub main_sender: Option<crossbeam::channel::Sender<Package>>,
    pub with: Value,
    pub dispatch: tracing::Dispatch,
}

impl ModuleSetup {
    pub fn is_main(&self) -> (r: bool)
        ensures
            r == (self.main_sender is Some),
    {
        self.main_sender.is_some()
    }
}

/// A module invocation that did not complete.
#[derive(Debug)]
pub enum ModuleFault {
    /// The module dropped the reply channel without answering.
    Dropped,
    /// The module's input channel is closed: its worker exited.
    Disconnected,
}

/// Relies on tokio's `oneshot::channel`: a fresh sender/receiver pair;
/// one value sent on the sender arrives at the receiver.
#[verifier::external_body]
fn oneshot_value_channel() -> (r: (
    tokio::sync::oneshot::Sender<Value>,
    tokio::sync::oneshot::Receiver<Value>,
))
{
    tokio::sync::oneshot::channel()
}

/// Relies on crossbeam's `Sender::send`, which fails exactly when every
/// receiver of the channel is gone.
#[verifier::external_body]
fn package_send(tx: &crossbeam::channel::Sender<ModulePackage>, p: ModulePackage) -> (r: Result<
    (),
    (),
>)
{
    match tx.send(p) {
        Ok(_) => Ok(()),
        Err(_) => Err(()),
    }
}

/// Relies on tokio's one-shot `Receiver::blocking_recv`, which blocks for
/// the single reply and fails exactly when the sender was dropped first.
/// It must be called from synchronous code, never inside an asynchronous
/// runtime; the engine runs each request synchronously.
#[verifier::external_body]
fn reply_recv(rx: tokio::sync::oneshot::Receiver<Value>) -> (r: Result<Value, ()>)
{
    match rx.blocking_recv() {
        Ok(v) => Ok(v),
        Err(_) => Err(()),
    }
}

/// Relies on tokio's one-shot `Sender::send`: the value either reaches
/// the receiver or comes back when the receiver is gone.
#[verifier::external_body]
pub fn reply_send(tx: tokio::sync::oneshot::Sender<Value>, v: Value) -> (r: Result<(), Value>)
{
    tx.send(v)
}

/// The engine's dispatch table: one long-lived input sender per module,
/// at the module's dense id, beside the name steps use for it.
pub struct Modules {
    pub names: Vec<String>,
    pub senders: Vec<crossbeam::channel::Sender<ModulePackage>>,
}

impl Modules {
    /// Dense ids: one sender per name.
    pub open spec fn wf(&self) -> bool {
        self.names@.len() == self.senders@.len()
    }

    pub fn new() -> (r: Modules)
        ensures
            r.wf(),
            r.names@.len() == 0,
    {
        Modules { names: Vec::new(), senders: Vec::new() }
    }

    /// Enter a module's input sender under the next dense id.
    pub fn register(&mut self, name: String, sender: crossbeam::channel::Sender<ModulePackage>)
        requires
            old(self).wf(),
        ensures
            final(self).wf(),
            final(self).names@.len() == old(self).names@.len() + 1,
            final(self).names@ == old(self).names@.push(name),
            final(self).senders@ == old(self).senders@.push(sender),
    {
        self.names.push(name);
        self.senders.push(sender);
    }

    pub fn len(&self) -> (r: usize)
        ensures
            r == self.names@.len(),
    {
        self.names.len()
    }

    /// Send one package to the module and block until its single reply.
    /// The reply value is whatever the module chose: nothing is assumed
    /// of it. Blocks on the reply channel, so it must be called from
    /// synchronous code.
    ///
    /// The channel discipline itself — one package per invocation, one
    /// reply awaited, matched by the package's own one-shot channel and
    /// not by module — lives in this body and in the channel types;
    /// contracts cannot see channel identity, so it is exercised by the
    /// crate's tests rather than stated here.
    pub fn call(&self, module_id: usize, context: Context) -> (r: Result<Value, ModuleFault>)
        requires
            self.wf(),
            module_id < self.names@.len(),
    {
        let (tx, rx) = oneshot_value_channel();
        let package = ModulePackage { context, sender: tx };
        match package_send(&self.senders[module_id], package) {
            Ok(_) => {},
            Err(_) => {
                return Err(ModuleFault::Disconnected);
            },
        }
        match reply_recv(rx) {
            Ok(v) => Ok(v),
            Err(_) => Err(ModuleFault::Dropped),
        }
    }
}

} // verus!
