//! Algebraic effects: effect operations and their declarations, and the
//! state of the built-in log, random and time handlers.
use vstd::prelude::*;
use crate::text::{push_str, string_of};

verus! {

/// An operation of an effect, named by the effect and the operation.
#[derive(Debug, Clone, Hash, PartialEq, Eq)]
pub struct EffectOp {
    pub effect_type: String,
    pub operation: String,
}

impl EffectOp {
    /// The operation `operation` of effect `effect_type`.
    pub fn new(effect_type: &str, operation: &str) -> (r: Self)
        ensures
            r.effect_type@ == effect_type@,
            r.operation@ == operation@,
    {
        EffectOp { effect_type: string_of(effect_type), operation: string_of(operation) }
    }
}

/// The messages the log handler has kept.
#[derive(Debug)]
pub struct LogHandler {
    messages: Vec<String>,
}

/// The upper-case name of a log level other than `log`.
pub open spec fn level_tag(op: Seq<char>) -> Option<Seq<char>> {
    if op == "debug"@ {
        Some("DEBUG"@)
    } else if op == "info"@ {
        Some("INFO"@)
    } else if op == "warn"@ {
        Some("WARN"@)
    } else if op == "error"@ {
        Some("ERROR"@)
    } else {
        None
    }
}

impl LogHandler {
    /// The messages kept, oldest first.
    pub closed spec fn kept(&self) -> Seq<Seq<char>> {
        crate::text::views_of(self.messages@)
    }

    /// A handler with no messages.
    pub fn new() -> (r: Self)
        ensures
            r.kept().len() == 0,
    {
        let r = LogHandler { messages: Vec::new() };
        assert(r.kept() =~= Seq::<Seq<char>>::empty());
        r
    }

    /// The messages kept, oldest first.
    pub fn messages(&self) -> (r: Vec<String>)
        ensures
            crate::text::views_of(r@) == self.kept(),
    {
        let mut out: Vec<String> = Vec::new();
        let mut i: usize = 0;
        while i < self.messages.len()
            invariant
                i <= self.messages.len(),
                out@.len() == i,
                forall|j: int| 0 <= j < i ==> (#[trigger] out@[j])@ == self.messages@[j]@,
            decreases self.messages.len() - i,
        {
            out.push(string_of(self.messages[i].as_str()));
            i = i + 1;
        }
        assert(crate::text::views_of(out@) =~= crate::text::views_of(self.messages@));
        out
    }

    /// Handle the log operation `op` with `message`: `log` keeps the message
    /// as it is, `debug`, `info`, `warn` and `error` keep it behind their
    /// upper-case tag in brackets; any other operation is not handled.
    pub fn log(&mut self, op: &str, message: &str) -> (handled: bool)
        ensures
            op@ == "log"@ ==> handled && final(self).kept() == old(self).kept().push(message@),
            (op@ != "log"@ && level_tag(op@) is Some) ==> handled && final(self).kept() == old(
                self,
            ).kept().push("["@ + level_tag(op@).unwrap() + "] "@ + message@),
            (op@ != "log"@ && level_tag(op@) is None) ==> !handled && final(self).kept() == old(self).kept(),
    {
        let tag = if crate::text::str_eq(op, "log") {
            self.messages.push(string_of(message));
            assert(self.kept() =~= old(self).kept().push(message@));
            return true;
        } else if crate::text::str_eq(op, "debug") {
            "DEBUG"
        } else if crate::text::str_eq(op, "info") {
            "INFO"
        } else if crate::text::str_eq(op, "warn") {
            "WARN"
        } else if crate::text::str_eq(op, "error") {
            "ERROR"
        } else {
            return false;
        };
        let mut m = string_of("[");
        push_str(&mut m, tag);
        push_str(&mut m, "] ");
        push_str(&mut m, message);
        self.messages.push(m);
        assert(self.kept() =~= old(self).kept().push("["@ + level_tag(op@).unwrap() + "] "@ + message@));
        true
    }
}

impl Default for LogHandler {
    fn default() -> (r: Self)
        ensures
            r.kept().len() == 0,
    {
        LogHandler::new()
    }
}

/// The state of a linear congruential generator.
#[derive(Debug)]
pub struct RandomHandler {
    seed: u64,
}

/// One step of the generator: multiply by 6364136223846793005 modulo 2^64,
/// then add 1442695040888963407 modulo 2^64.
pub open spec fn lcg_step(seed: u64) -> u64 {
    let product = (seed as nat * 6364136223846793005nat) % 0x1_0000_0000_0000_0000nat;
    ((product + 1442695040888963407nat) % 0x1_0000_0000_0000_0000nat) as u64
}

impl RandomHandler {
    /// The generator's state.
    pub closed spec fn state(&self) -> u64 {
        self.seed
    }

    /// A generator seeded with 42.
    pub fn new() -> (r: Self)
        ensures
            r.state() == 42,
    {
        Self::with_seed(42)
    }

    /// A generator seeded with `seed`.
    pub fn with_seed(seed: u64) -> (r: Self)
        ensures
            r.state() == seed,
    {
        RandomHandler { seed }
    }

    /// Advance the generator and give its new state.
    pub fn next_seed(&mut self) -> (r: u64)
        ensures
            r == lcg_step(old(self).state()),
            final(self).state() == r,
    {
        let s = self.seed.wrapping_mul(6364136223846793005).wrapping_add(1442695040888963407);
        self.seed = s;
        s
    }
}

impl Default for RandomHandler {
    fn default() -> (r: Self)
        ensures
            r.state() == 42,
    {
        Self::new()
    }
}

/// The time handler: a frozen time, or none.
#[derive(Debug)]
pub struct TimeHandler {
    frozen_time: Option<u64>,
}

impl TimeHandler {
    /// The frozen time, if frozen.
    pub closed spec fn frozen(&self) -> Option<u64> {
        self.frozen_time
    }

    /// A handler that is not frozen.
    pub fn new() -> (r: Self)
        ensures
            r.frozen() is None,
    {
        TimeHandler { frozen_time: None }
    }

    /// Freeze the time at `timestamp`.
    pub fn freeze(&mut self, timestamp: u64)
        ensures
            final(self).frozen() == Some(timestamp),
    {
        self.frozen_time = Some(timestamp);
    }

    /// Let the time run again.
    pub fn unfreeze(&mut self)
        ensures
            final(self).frozen() is None,
    {
        self.frozen_time = None;
    }

    /// The frozen time, if frozen.
    pub fn frozen_time(&self) -> (r: Option<u64>)
        ensures
            r == self.frozen(),
    {
        self.frozen_time
    }

    /// The time the `now` operation answers: the frozen time, or the clock's.
    pub fn now(&self, clock_ms: u64) -> (r: u64)
        ensures
            r == match self.frozen() {
                Some(t) => t,
                None => clock_ms,
            },
    {
        match self.frozen_time {
            Some(t) => t,
            None => clock_ms,
        }
    }
}

impl Default for TimeHandler {
    fn default() -> (r: Self)
        ensures
            r.frozen() is None,
    {
        TimeHandler::new()
    }
}

/// The declaration of an effect: its name and operations.
#[derive(Debug, Clone)]
pub struct EffectDefinition {
    pub name: String,
    pub operations: Vec<OperationSignature>,
}

/// An operation's parameters and return type.
#[derive(Debug, Clone)]
pub struct OperationSignature {
    pub name: String,
    pub params: Vec<ParamDef>,
    pub return_type: String,
}

/// A parameter's name and type.
#[derive(Debug, Clone)]
pub struct ParamDef {
    pub name: String,
    pub param_type: String,
}

impl EffectDefinition {
    /// An effect named `name` with no operations.
    pub fn new(name: &str) -> (r: Self)
        ensures
            r.name@ == name@,
            r.operations@.len() == 0,
    {
        EffectDefinition { name: string_of(name), operations: Vec::new() }
    }

    /// The effect with `op` added as its last operation.
    pub fn add_operation(self, op: OperationSignature) -> (r: Self)
        ensures
            r.name == self.name,
            r.operations@ == self.operations@.push(op),
    {
        let mut d = self;
        d.operations.push(op);
        d
    }
}

} // verus!
