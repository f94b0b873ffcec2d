use vstd::prelude::*;
use crate::validate::names_contain;

verus! {

/// A specification-wide tag: a bare word (`trace`, `awt`) or a word with
/// arguments (`notrace(a, b)`, `timeout(expr)`, `future(a)`).
#[derive(Debug, PartialEq, Eq)]
pub enum Attribute {
    Attr(String),
    Tagged(String, Vec<String>),
}

pub open spec fn is_trace_spec(m: Attribute) -> bool {
    m matches Attribute::Attr(i) && i@ == "trace"@
}

pub open spec fn is_notrace_spec(ident: Seq<char>, m: Attribute) -> bool {
    m matches Attribute::Tagged(i, args) && i@ == "notrace"@ && names_contain(args@, ident)
}

pub open spec fn is_async_attr(m: Attribute) -> bool {
    (m matches Attribute::Attr(i) && i@ == "awt"@) || (m matches Attribute::Tagged(i, _) && i@ == "future"@)
}

/// The expression of the last `timeout` among the first `n` attributes.
pub open spec fn timeout_upto(attrs: Seq<Attribute>, n: int) -> Option<String>
    decreases n,
{
    if n <= 0 {
        None
    } else {
        match attrs[n - 1] {
            Attribute::Tagged(i, args) if i@ == "timeout"@ && args@.len() == 1 => Some(args@[0]),
            _ => timeout_upto(attrs, n - 1),
        }
    }
}

/// The specification-wide attributes, in the order they were written.
#[derive(Debug, PartialEq, Eq)]
pub struct RsTestAttributes {
    pub attributes: Vec<Attribute>,
}

impl RsTestAttributes {
    pub open spec fn spec_should_trace(&self) -> bool {
        exists|k: int| 0 <= k < self.attributes@.len() && is_trace_spec(#[trigger] self.attributes@[k])
    }

    pub open spec fn spec_trace_me(&self, ident: Seq<char>) -> bool {
        self.spec_should_trace() && !exists|k: int|
            0 <= k < self.attributes@.len() && is_notrace_spec(ident, #[trigger] self.attributes@[k])
    }

    pub open spec fn spec_is_async(&self) -> bool {
        exists|k: int| 0 <= k < self.attributes@.len() && is_async_attr(#[trigger] self.attributes@[k])
    }

    pub open spec fn spec_timeout(&self) -> Option<String> {
        timeout_upto(self.attributes@, self.attributes@.len() as int)
    }

    pub fn is_trace(m: &Attribute) -> (r: bool)
        ensures
            r == is_trace_spec(*m),
    {
        let trace = String::from_str("trace");
        match m {
            Attribute::Attr(i) => i.eq(&trace),
            _ => false,
        }
    }

    pub fn is_notrace(ident: &String, m: &Attribute) -> (r: bool)
        ensures
            r == is_notrace_spec(ident@, *m),
    {
        let notrace = String::from_str("notrace");
        match m {
            Attribute::Tagged(i, args) => i.eq(&notrace) && crate::validate::contains_name(args, ident),
            _ => false,
        }
    }

    /// Whether tracing is on for the whole specification.
    pub fn should_trace(&self) -> (r: bool)
        ensures
            r == self.spec_should_trace(),
    {
        let mut k: usize = 0;
        while k < self.attributes.len()
            invariant
                k <= self.attributes@.len(),
                forall|j: int| 0 <= j < k ==> !is_trace_spec(self.attributes@[j]),
            decreases self.attributes@.len() - k,
        {
            if Self::is_trace(&self.attributes[k]) {
                return true;
            }
            k = k + 1;
        }
        false
    }

    /// Whether the argument `ident` is traced: tracing is on and no `notrace`
    /// lists it.
    pub fn trace_me(&self, ident: &String) -> (r: bool)
        ensures
            r == self.spec_trace_me(ident@),
    {
        if !self.should_trace() {
            return false;
        }
        let mut k: usize = 0;
        while k < self.attributes.len()
            invariant
                k <= self.attributes@.len(),
                forall|j: int| 0 <= j < k ==> !is_notrace_spec(ident@, self.attributes@[j]),
            decreases self.attributes@.len() - k,
        {
            if Self::is_notrace(ident, &self.attributes[k]) {
                return false;
            }
            k = k + 1;
        }
        true
    }

    /// Whether the invocations run asynchronously.
    pub fn is_async(&self) -> (r: bool)
        ensures
            r == self.spec_is_async(),
    {
        let awt = String::from_str("awt");
        let future = String::from_str("future");
        let mut k: usize = 0;
        while k < self.attributes.len()
            invariant
                k <= self.attributes@.len(),
                awt@ == "awt"@,
                future@ == "future"@,
                forall|j: int| 0 <= j < k ==> !is_async_attr(self.attributes@[j]),
            decreases self.attributes@.len() - k,
        {
            let hit = match &self.attributes[k] {
                Attribute::Attr(i) => i.eq(&awt),
                Attribute::Tagged(i, _) => i.eq(&future),
            };
            if hit {
                return true;
            }
            k = k + 1;
        }
        false
    }

    /// The expression of the last `timeout` written, if any.
    pub fn timeout(&self) -> (r: Option<String>)
        ensures
            r == self.spec_timeout(),
    {
        let timeout = String::from_str("timeout");
        let mut r: Option<String> = None;
        let mut k: usize = 0;
        while k < self.attributes.len()
            invariant
                k <= self.attributes@.len(),
                timeout@ == "timeout"@,
                r == timeout_upto(self.attributes@, k as int),
            decreases self.attributes@.len() - k,
        {
            match &self.attributes[k] {
                Attribute::Tagged(i, args) => {
                    if i.eq(&timeout) && args.len() == 1 {
                        r = Some(args[0].clone());
                    }
                },
                _ => {},
            }
            k = k + 1;
        }
        r
    }

    pub fn add_trace(&mut self, trace: String)
        ensures
            final(self).attributes@ == old(self).attributes@.push(Attribute::Attr(trace)),
    {
        self.attributes.push(Attribute::Attr(trace));
    }

    /// Excludes the given arguments from tracing; nothing is added for an
    /// empty list.
    pub fn add_notraces(&mut self, notraces: Vec<String>)
        ensures
            notraces@.len() == 0 ==> final(self).attributes@ == old(self).attributes@,
            notraces@.len() > 0 ==> final(self).attributes@.len() == old(self).attributes@.len() + 1,
            notraces@.len() > 0 ==> final(self).attributes@.drop_last() == old(self).attributes@,
            notraces@.len() > 0 ==> (final(self).attributes@.last() matches Attribute::Tagged(i, args)
                && i@ == "notrace"@ && args == notraces),
    {
        if notraces.len() == 0 {
            return ;
        }
        self.attributes.push(Attribute::Tagged(String::from_str("notrace"), notraces));
        assert(self.attributes@.drop_last() == old(self).attributes@);
    }
}

} // verus!
