//! The request side of the server: reading one command from a request's
//! text, dispatching it to an engine, and writing the response's text.
//!
//! The network loop — accepting connections and moving their bytes — lives
//! outside the library; per connection it hands the request text to
//! [`serve_request`] (or [`Server::serve`]) and writes back what it yields.

use vstd::prelude::*;

use crate::codec::{encode_response, encoded_response, parse_command, parse_command_at};
use crate::strings::{chars_to_string, str_to_chars};
use crate::engines::KvsEngine;
use crate::error::KvsError;
use crate::thread_pool::ThreadPool;
use crate::util::{Command, CommandModel, Response, ResponseModel};

verus! {

/// What a response says about the engine's mapping before (`pre`) and after
/// (`post`) a command was dispatched: a successful `Set` inserted the pair,
/// a `Get` answered from `pre` (with the sentinel for an absent key) and
/// changed nothing, a successful `Rm` removed a present key, and an `Rm` of
/// an absent key did not succeed.  A failure response carries the engine
/// error's message, about which nothing more is said.
pub open spec fn response_describes(
    c: CommandModel,
    pre: Map<Seq<char>, Seq<char>>,
    post: Map<Seq<char>, Seq<char>>,
    resp: ResponseModel,
) -> bool {
    match c {
        CommandModel::Put { key, value } => resp.res ==> post == pre.insert(key, value)
            && resp.info.len() == 0,
        CommandModel::Get { key } => {
            &&& post == pre
            &&& resp.res ==> (if pre.contains_key(key) {
                resp.info == pre[key]
            } else {
                resp.info == "Key not found"@
            })
        },
        CommandModel::Rm { key } => {
            &&& resp.res ==> pre.contains_key(key) && post == pre.remove(key) && resp.info.len()
                == 0
            &&& !pre.contains_key(key) ==> !resp.res
        },
    }
}

/// What an engine that cannot fail answers: success for `Set`; the value or
/// the sentinel for `Get`; for `Rm`, success exactly on a present key and
/// the `KeyNotFound` message on an absent one.
pub open spec fn response_resolves(
    c: CommandModel,
    pre: Map<Seq<char>, Seq<char>>,
    resp: ResponseModel,
) -> bool {
    match c {
        CommandModel::Put { .. } => resp.res && resp.info.len() == 0,
        CommandModel::Get { key } => resp.res && (if pre.contains_key(key) {
            resp.info == pre[key]
        } else {
            resp.info == "Key not found"@
        }),
        CommandModel::Rm { key } => {
            &&& resp.res <==> pre.contains_key(key)
            &&& resp.res ==> resp.info.len() == 0
            &&& !resp.res ==> resp.info == "Key not found"@
        },
    }
}

/// The response reporting a `set` or `remove` outcome: success with an
/// empty `info`, or failure carrying the error's message.
pub fn ack_response(outcome: Result<(), KvsError>) -> (resp: Response)
    ensures
        resp.res <==> outcome is Ok,
        outcome is Ok ==> resp.info@.len() == 0,
        outcome matches Err(e) ==> resp.info@ == e.spec_message(),
{
    match outcome {
        Ok(()) => Response { res: true, info: String::new() },
        Err(err) => Response { res: false, info: err.message() },
    }
}

/// The response reporting a `get` outcome: the value, the "Key not found"
/// sentinel for an absent key (still a success), or failure carrying the
/// error's message.
pub fn get_response(outcome: Result<Option<String>, KvsError>) -> (resp: Response)
    ensures
        resp.res <==> outcome is Ok,
        outcome matches Ok(Some(v)) ==> resp.info@ == v@,
        outcome matches Ok(None) ==> resp.info@ == "Key not found"@,
        outcome matches Err(e) ==> resp.info@ == e.spec_message(),
{
    match outcome {
        Ok(Some(v)) => Response { res: true, info: v },
        Ok(None) => Response { res: true, info: "Key not found".to_owned() },
        Err(err) => Response { res: false, info: err.message() },
    }
}

/// Dispatches a `Set` to the engine and reports the outcome; on an
/// infallible engine the response must report success.
pub fn handle_set<E: KvsEngine>(engine: &mut E, key: String, value: String) -> (r: Result<
    Response,
    KvsError,
>)
    requires
        old(engine).inv(),
    ensures
        final(engine).inv(),
        final(engine).infallible() == old(engine).infallible(),
        r is Ok,
        r matches Ok(resp) ==> response_describes(
            CommandModel::Put { key: key@, value: value@ },
            old(engine).model(),
            final(engine).model(),
            resp@,
        ),
        r matches Ok(resp) ==> (old(engine).infallible() ==> response_resolves(
            CommandModel::Put { key: key@, value: value@ },
            old(engine).model(),
            resp@,
        )),
{
    let outcome = engine.set(key, value);
    Ok(ack_response(outcome))
}

/// Dispatches a `Get` to the engine and reports the value, the sentinel, or
/// the error's message; on an infallible engine the response must report
/// success and carry the value or the sentinel.
pub fn handle_get<E: KvsEngine>(engine: &E, key: String) -> (r: Result<Response, KvsError>)
    requires
        engine.inv(),
    ensures
        r is Ok,
        r matches Ok(resp) ==> response_describes(
            CommandModel::Get { key: key@ },
            engine.model(),
            engine.model(),
            resp@,
        ),
        r matches Ok(resp) ==> (engine.infallible() ==> response_resolves(
            CommandModel::Get { key: key@ },
            engine.model(),
            resp@,
        )),
{
    let outcome = engine.get(key);
    Ok(get_response(outcome))
}

/// Dispatches an `Rm` to the engine and reports the outcome; on an
/// infallible engine the response reports success exactly for a present
/// key, and carries the `KeyNotFound` message otherwise.
pub fn handle_remove<E: KvsEngine>(engine: &mut E, key: String) -> (r: Result<Response, KvsError>)
    requires
        old(engine).inv(),
    ensures
        final(engine).inv(),
        final(engine).infallible() == old(engine).infallible(),
        r is Ok,
        r matches Ok(resp) ==> response_describes(
            CommandModel::Rm { key: key@ },
            old(engine).model(),
            final(engine).model(),
            resp@,
        ),
        r matches Ok(resp) ==> (old(engine).infallible() ==> response_resolves(
            CommandModel::Rm { key: key@ },
            old(engine).model(),
            resp@,
        )),
{
    let outcome = engine.remove(key);
    Ok(ack_response(outcome))
}

/// Serves one request: reads one whole command from the text, dispatches
/// it, and yields the response's text.  Fails, with `Sered` and the engine
/// untouched, exactly when the text is not one whole command.
pub fn serve_request<E: KvsEngine>(engine: &mut E, request: &str) -> (r: Result<String, KvsError>)
    requires
        old(engine).inv(),
    ensures
        final(engine).inv(),
        final(engine).infallible() == old(engine).infallible(),
        ({
            let p = parse_command(request@, 0);
            &&& r is Ok <==> (p is Some && (p->0).1 == request@.len())
            &&& r matches Ok(text) ==> exists|resp: ResponseModel|
                text@ == encoded_response(resp) && #[trigger] response_describes(
                    (p->0).0,
                    old(engine).model(),
                    final(engine).model(),
                    resp,
                ) && (old(engine).infallible() ==> response_resolves(
                    (p->0).0,
                    old(engine).model(),
                    resp,
                ))
            &&& r matches Err(e) ==> (e matches KvsError::Sered(_)) && final(engine).model()
                == old(engine).model()
        }),
{
    let chars = str_to_chars(request);
    let (cmd, end) = match parse_command_at(&chars, 0) {
        Some(pair) => pair,
        None => {
            return Err(KvsError::Sered("malformed request".to_owned()));
        },
    };
    if end != chars.len() {
        return Err(KvsError::Sered("trailing text after the request".to_owned()));
    }
    let ghost c = cmd@;
    let resp = match cmd {
        Command::Put { key, value } => {
            match handle_set(engine, key, value) {
                Ok(resp) => resp,
                Err(_) => {
                    proof {
                        assert(false);
                    }
                    Response { res: false, info: String::new() }
                },
            }
        },
        Command::Get { key } => {
            match handle_get(engine, key) {
                Ok(resp) => resp,
                Err(_) => {
                    proof {
                        assert(false);
                    }
                    Response { res: false, info: String::new() }
                },
            }
        },
        Command::Rm { key } => {
            match handle_remove(engine, key) {
                Ok(resp) => resp,
                Err(_) => {
                    proof {
                        assert(false);
                    }
                    Response { res: false, info: String::new() }
                },
            }
        },
    };
    let out = encode_response(&resp);
    let text = chars_to_string(&out);
    proof {
        let p = parse_command(request@, 0);
        assert(text@ == encoded_response(resp@));
        assert(response_describes((p->0).0, old(engine).model(), engine.model(), resp@));
        assert(old(engine).infallible() ==> response_resolves(
            (p->0).0,
            old(engine).model(),
            resp@,
        ));
    }
    Ok(text)
}

/// A server: a storage engine, and the pool its connection handlers run on.
pub struct Server<E: KvsEngine, P: ThreadPool> {
    /// The storage engine requests run against.
    pub engine: E,
    /// The pool handed the per-connection work.
    pub thread_pool: P,
}

impl<E: KvsEngine, P: ThreadPool> Server<E, P> {
    /// Builds a server from an engine and a pool.
    pub fn new(engine: E, thread_pool: P) -> (r: Result<Server<E, P>, KvsError>)
        requires
            engine.inv(),
        ensures
            r is Ok,
            r matches Ok(s) ==> s.engine == engine && s.engine.inv() && s.thread_pool
                == thread_pool,
    {
        Ok(Server { engine, thread_pool })
    }

    /// Serves one request against this server's engine.
    pub fn serve(&mut self, request: &str) -> (r: Result<String, KvsError>)
        requires
            old(self).engine.inv(),
        ensures
            final(self).engine.inv(),
            final(self).engine.infallible() == old(self).engine.infallible(),
            final(self).thread_pool == old(self).thread_pool,
            ({
                let p = parse_command(request@, 0);
                &&& r is Ok <==> (p is Some && (p->0).1 == request@.len())
                &&& r matches Ok(text) ==> exists|resp: ResponseModel|
                    text@ == encoded_response(resp) && #[trigger] response_describes(
                        (p->0).0,
                        old(self).engine.model(),
                        final(self).engine.model(),
                        resp,
                    ) && (old(self).engine.infallible() ==> response_resolves(
                        (p->0).0,
                        old(self).engine.model(),
                        resp,
                    ))
                &&& r matches Err(e) ==> (e matches KvsError::Sered(_))
                    && final(self).engine.model() == old(self).engine.model()
            }),
    {
        serve_request(&mut self.engine, request)
    }
}

} // verus!
