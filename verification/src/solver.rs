//! The solver session: an external SMT process behind a narrow protocol
//! (spawn, configure, declare, assert, query).
//!
//! Every call into the solver crate stands behind a trusted item here.
//! Nothing is promised of the solver's answers; the verified code states
//! what holds of every outcome and maps the reported status exactly.

use vstd::prelude::*;
use crate::term::Term;

verus! {

#[verifier::external_type_specification]
#[verifier::external_body]
pub struct ExSmtlibSession(smtkit::session::SmtlibSession);

#[verifier::external_type_specification]
#[verifier::external_body]
pub struct ExSessionError(smtkit::session::SessionError);

#[verifier::external_type_specification]
#[verifier::external_body]
pub struct ExSexp(smtkit::sexp::Sexp);

/// The satisfiability statuses a solver session can report.
#[derive(Debug, Clone, Copy, PartialEq, Eq, Structural)]
pub enum SatStatus {
    /// The asserted set has a model.
    Sat,
    /// The asserted set has no model.
    Unsat,
    /// The solver could not decide (for example, the timeout ran out).
    Unknown,
}

/// Relies on `smtkit::session::spawn_auto`: spawns an external solver
/// process; any spawn failure is reported as absence.
#[verifier::external_body]
pub(crate) fn spawn_solver() -> (r: Option<smtkit::session::SmtlibSession>) {
    match smtkit::session::spawn_auto() {
        Ok((sess, _used)) => Some(sess),
        Err(_) => None,
    }
}

/// Relies on `SmtlibSession::set_logic`: sends `(set-logic ...)`.
#[verifier::external_body]
pub(crate) fn session_set_logic(
    sess: &mut smtkit::session::SmtlibSession,
    logic: &str,
) -> (r: Result<(), smtkit::session::SessionError>) {
    sess.set_logic(logic)
}

/// Relies on `SmtlibSession::set_print_success`.
#[verifier::external_body]
pub(crate) fn session_set_print_success(
    sess: &mut smtkit::session::SmtlibSession,
    enabled: bool,
) -> (r: Result<(), smtkit::session::SessionError>) {
    sess.set_print_success(enabled)
}

/// Relies on `SmtlibSession::set_produce_models`.
#[verifier::external_body]
pub(crate) fn session_set_produce_models(
    sess: &mut smtkit::session::SmtlibSession,
    enabled: bool,
) -> (r: Result<(), smtkit::session::SessionError>) {
    sess.set_produce_models(enabled)
}

/// Relies on `SmtlibSession::set_timeout_ms`.
#[verifier::external_body]
pub(crate) fn session_set_timeout_ms(
    sess: &mut smtkit::session::SmtlibSession,
    ms: u64,
) -> (r: Result<(), smtkit::session::SessionError>) {
    sess.set_timeout_ms(ms)
}

/// Relies on `SmtlibSession::set_random_seed`.
#[verifier::external_body]
pub(crate) fn session_set_random_seed(
    sess: &mut smtkit::session::SmtlibSession,
    seed: u64,
) -> (r: Result<(), smtkit::session::SessionError>) {
    sess.set_random_seed(seed)
}

/// Relies on smtkit's `Sexp` shape (atoms and lists): builds the
/// structural one-to-one image of a term, exactly as smtkit's own
/// constructors `int_lit`, `sym` and `app` do.
#[verifier::external_body]
fn term_to_sexp(t: &Term) -> smtkit::sexp::Sexp {
    match t {
        Term::IntLit(v) => smtkit::sexp::Sexp::Atom(v.to_string()),
        Term::Sym(s) => smtkit::sexp::Sexp::Atom(s.clone()),
        Term::App(f, args) => {
            let mut items = vec![smtkit::sexp::Sexp::Atom(f.clone())];
            items.extend(args.iter().map(term_to_sexp));
            smtkit::sexp::Sexp::List(items)
        },
    }
}

/// Relies on `SmtlibSession::declare_const` and `smt2::Sort::to_smt2`:
/// declares `name` as a constant of the integer sort.
#[verifier::external_body]
pub(crate) fn session_declare_int_const(
    sess: &mut smtkit::session::SmtlibSession,
    name: &str,
) -> (r: Result<(), smtkit::session::SessionError>) {
    sess.declare_const(name, &smtkit::smt2::Sort::Int.to_smt2())
}

/// Relies on `SmtlibSession::assert_sexp`: asserts the given term.
#[verifier::external_body]
pub(crate) fn session_assert_term(
    sess: &mut smtkit::session::SmtlibSession,
    t: &Term,
) -> (r: Result<(), smtkit::session::SessionError>) {
    sess.assert_sexp(&term_to_sexp(t))
}

/// Relies on `SmtlibSession::assert_sexp` and smtkit's `not`
/// constructor: asserts the logical negation of the given term.
#[verifier::external_body]
pub(crate) fn session_assert_negated(
    sess: &mut smtkit::session::SmtlibSession,
    t: &Term,
) -> (r: Result<(), smtkit::session::SessionError>) {
    sess.assert_sexp(&smtkit::smt2::t::not(term_to_sexp(t)))
}

/// Relies on `SmtlibSession::check_sat`: runs `(check-sat)` and maps the
/// reported status one-to-one.
#[verifier::external_body]
pub(crate) fn session_check_sat(sess: &mut smtkit::session::SmtlibSession) -> (r: Result<
    SatStatus,
    smtkit::session::SessionError,
>) {
    match sess.check_sat() {
        Ok(smtkit::session::Status::Sat) => Ok(SatStatus::Sat),
        Ok(smtkit::session::Status::Unsat) => Ok(SatStatus::Unsat),
        Ok(smtkit::session::Status::Unknown) => Ok(SatStatus::Unknown),
        Err(e) => Err(e),
    }
}

/// Relies on `SessionError`'s `Display` implementation (through
/// `ToString`) for the failure text.
#[verifier::external_body]
pub(crate) fn session_error_text(e: &smtkit::session::SessionError) -> (r: String) {
    e.to_string()
}

} // verus!
