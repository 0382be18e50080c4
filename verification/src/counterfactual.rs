//! Channel overrides of a counterfactual run.
//!
//! An override is written `CHANNEL=value-or-expression`. It is split at the first
//! `=` only: a channel may hold spaces, and the right side may hold further `=`.
//! A right side that is a literal pins the channel to a constant; any other is
//! the source of an expression, kept as written.

use crate::decimal::{double_literal, integer_literal, parse_double, parse_integer};
use crate::error::EvalError;
use crate::text::{chars_of, joined, quoted, quoted_text, same, text_of, trim, trimmed};
use crate::value::Value;
use vstd::prelude::*;
use vstd::string::*;

verus! {

/// An override of one channel.
#[derive(Debug, PartialEq)]
pub enum Override {
    /// The channel has one value on every tick.
    Const {
        /// The channel.
        channel: String,
        /// The value.
        value: Value,
    },
    /// The channel follows an expression.
    Expr {
        /// The channel.
        channel: String,
        /// The source of the expression.
        source: String,
    },
}

/// What an override specification says.
pub enum OverrideView {
    /// It has no `=`.
    NoEquals,
    /// It names no channel.
    NoChannel,
    /// It gives no value.
    NoValue,
    /// A channel and a constant.
    Const(Seq<char>, Value),
    /// A channel and an expression.
    Expr(Seq<char>, Seq<char>),
}

/// The position of the first `=`, or the length.
pub open spec fn equals_at(s: Seq<char>) -> nat
    decreases s.len(),
{
    if s.len() == 0 {
        0
    } else if s[0] == '=' {
        0
    } else {
        1 + equals_at(s.drop_first())
    }
}

/// The constant that a literal writes: a Boolean, else an integer of 64 bits, else a finite number.
pub open spec fn constant_of(rhs: Seq<char>) -> Option<Value> {
    if rhs == "true"@ {
        Some(Value::Bool(true))
    } else if rhs == "false"@ {
        Some(Value::Bool(false))
    } else {
        match integer_literal(rhs) {
            Some(v) if i64::MIN <= v <= i64::MAX => Some(Value::Int(v as i64)),
            _ => match double_literal(rhs) {
                Some(v) if v.is_finite() => Some(Value::Float(v)),
                _ => None,
            },
        }
    }
}

/// What an override specification says.
pub open spec fn override_of(spec_text: Seq<char>) -> OverrideView {
    let i = equals_at(spec_text) as int;
    let channel = trimmed(spec_text.take(i));
    let rhs = trimmed(spec_text.skip(i + 1));
    if i == spec_text.len() {
        OverrideView::NoEquals
    } else if channel.len() == 0 {
        OverrideView::NoChannel
    } else if rhs.len() == 0 {
        OverrideView::NoValue
    } else {
        match constant_of(rhs) {
            Some(v) => OverrideView::Const(channel, v),
            None => OverrideView::Expr(channel, rhs),
        }
    }
}

fn parse_const_rhs(rhs: &str) -> (r: Option<Value>)
    ensures
        r == constant_of(rhs@),
{
    if same(rhs, "true") {
        return Some(Value::Bool(true));
    }
    if same(rhs, "false") {
        return Some(Value::Bool(false));
    }
    if let Some(v) = parse_integer(rhs, -0x8000_0000_0000_0000, 0x7fff_ffff_ffff_ffff) {
        return Some(Value::Int(v as i64));
    }
    if let Some(v) = parse_double(rhs) {
        if v.is_finite() {
            return Some(Value::Float(v));
        }
    }
    None
}

/// The message of a malformed specification.
pub open spec fn complaint(spec_text: Seq<char>, what: Seq<char>) -> Seq<char> {
    "override spec "@ + quoted_text(spec_text) + what
}

fn malformed(spec_text: &str, what: &str) -> (r: EvalError)
    ensures
        is_malformed(r, spec_text@, what@),
{
    let q = quoted(spec_text);
    EvalError::UnsupportedConstruct {
        kind: joined("override spec ", q.as_str()).concat(what),
        at: 0,
    }
}

/// Whether an error complains about a specification.
pub open spec fn is_malformed(e: EvalError, spec_text: Seq<char>, what: Seq<char>) -> bool {
    e matches EvalError::UnsupportedConstruct { kind, at } && at == 0 && kind@ == complaint(
        spec_text,
        what,
    )
}

/// Whether an error says what is wrong with a specification.
pub open spec fn is_override_error(e: EvalError, spec_text: Seq<char>) -> bool {
    match override_of(spec_text) {
        OverrideView::NoEquals => is_malformed(
            e,
            spec_text,
            " has no `=` (expected `CHANNEL=value-or-expression`)"@,
        ),
        OverrideView::NoChannel => is_malformed(
            e,
            spec_text,
            " has an empty channel name before `=`"@,
        ),
        OverrideView::NoValue => is_malformed(
            e,
            spec_text,
            " has an empty value/expression after `=`"@,
        ),
        _ => false,
    }
}

impl Override {
    /// Parses an override specification.
    pub fn parse(spec_text: &str) -> (r: Result<Override, EvalError>)
        ensures
            match override_of(spec_text@) {
                OverrideView::Const(c, v) => r matches Ok(Override::Const { channel, value })
                    && channel@ == c && value == v,
                OverrideView::Expr(c, s) => r matches Ok(Override::Expr { channel, source })
                    && channel@ == c && source@ == s,
                _ => r matches Err(e) && is_override_error(e, spec_text@),
            },
    {
        let v = chars_of(spec_text);
        let mut i: usize = 0;
        assert(v@.skip(0) =~= v@);
        while i < v.len() && v[i] != '='
            invariant
                i <= v.len(),
                equals_at(v@) == i + equals_at(v@.skip(i as int)),
            decreases v.len() - i,
        {
            assert(v@.skip(i as int)[0] == v@[i as int]);
            assert(v@.skip(i as int).drop_first() =~= v@.skip(i + 1));
            i = i + 1;
        }
        proof {
            if i < v.len() {
                assert(v@.skip(i as int)[0] == v@[i as int]);
            }
        }
        assert(equals_at(v@) == i);
        if i == v.len() {
            return Err(
                malformed(spec_text, " has no `=` (expected `CHANNEL=value-or-expression`)"),
            );
        }
        let left = text_of(&v, 0, i);
        let right = text_of(&v, i + 1, v.len());
        assert(left@ =~= spec_text@.take(i as int));
        assert(right@ =~= spec_text@.skip(i + 1));
        let channel = trim(left.as_str());
        let rhs = trim(right.as_str());
        if channel.as_str().is_empty() {
            return Err(malformed(spec_text, " has an empty channel name before `=`"));
        }
        if rhs.as_str().is_empty() {
            return Err(malformed(spec_text, " has an empty value/expression after `=`"));
        }
        match parse_const_rhs(rhs.as_str()) {
            Some(value) => Ok(Override::Const { channel, value }),
            None => Ok(Override::Expr { channel, source: rhs }),
        }
    }

    /// The channel that is overridden.
    pub open spec fn target(self) -> Seq<char> {
        match self {
            Override::Const { channel, .. } => channel@,
            Override::Expr { channel, .. } => channel@,
        }
    }

    /// The channel that is overridden.
    pub fn channel(&self) -> (r: &str)
        ensures
            r@ == self.target(),
    {
        match self {
            Override::Const { channel, .. } => channel.as_str(),
            Override::Expr { channel, .. } => channel.as_str(),
        }
    }
}

/// Only the first `=` splits: what is after it belongs to the right side.
pub proof fn law_first_equals_splits(channel: Seq<char>, rhs: Seq<char>)
    requires
        !channel.contains('='),
    ensures
        equals_at(channel.push('=') + rhs) == channel.len(),
    decreases channel.len(),
{
    let s = channel.push('=') + rhs;
    if channel.len() == 0 {
        assert(s[0] == '=');
    } else {
        assert(s[0] == channel[0]);
        assert(channel.contains(channel[0]));
        let rest = channel.drop_first();
        assert(!rest.contains('=')) by {
            if rest.contains('=') {
                let j = choose|j: int| 0 <= j < rest.len() && rest[j] == '=';
                assert(channel[j + 1] == '=');
            }
        }
        assert(s.drop_first() =~= rest.push('=') + rhs);
        law_first_equals_splits(rest, rhs);
    }
}

} // verus!
