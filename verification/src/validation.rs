//! Event capture for side-by-side validation of profiler behavior.
//!
//! Callback-layer events are recorded as plain values so that two profiler
//! builds run over the same workload can be compared event by event.  The
//! framework here only collects; reading timestamps and exporting the log
//! are the embedding program's business.

use vstd::prelude::*;

verus! {

/// One captured profiler event.
#[derive(Debug, Clone)]
pub struct ValidationEvent {
    pub timestamp_micros: u64,
    pub event_type: String,
    pub function_id: Option<u64>,
    pub module_id: Option<u64>,
    pub method_name: Option<String>,
    pub assembly_name: Option<String>,
    pub parameters: Vec<(String, String)>,
}

/// Collects validation events while enabled.
pub struct ValidationFramework {
    pub events: Vec<ValidationEvent>,
    pub enabled: bool,
}

impl ValidationFramework {
    /// Create a framework; a disabled one drops every event.
    pub fn new(enabled: bool) -> (r: Self)
        ensures
            r.events@ == Seq::<ValidationEvent>::empty(),
            r.enabled == enabled,
    {
        Self { events: Vec::new(), enabled }
    }

    /// Whether events are being captured.
    pub open spec fn is_enabled(&self) -> bool {
        self.enabled
    }

    /// The captured events, oldest first.
    pub open spec fn captured(&self) -> Seq<ValidationEvent> {
        self.events@
    }

    /// Record an event: appended when enabled, dropped otherwise.
    pub fn log_event(&mut self, event: ValidationEvent)
        ensures
            final(self).enabled == old(self).enabled,
            old(self).enabled ==> final(self).events@ == old(self).events@.push(event),
            !old(self).enabled ==> final(self).events@ == old(self).events@,
    {
        if !self.enabled {
            return ;
        }
        self.events.push(event);
    }

    /// Record a JIT-compilation event for a function, with the moment it
    /// was observed.
    pub fn log_jit_compilation(&mut self, function_id: u64, is_safe_to_block: bool, now_micros: u64)
        ensures
            final(self).enabled == old(self).enabled,
            !old(self).enabled ==> final(self).events@ == old(self).events@,
            old(self).enabled ==> {
                &&& final(self).events@.len() == old(self).events@.len() + 1
                &&& old(self).events@.is_prefix_of(final(self).events@)
                &&& final(self).events@.last().timestamp_micros == now_micros
                &&& final(self).events@.last().event_type@ == "JITCompilationStarted"@
                &&& final(self).events@.last().function_id == Some(function_id)
                &&& final(self).events@.last().module_id is None
                &&& final(self).events@.last().parameters@.len() == 1
                &&& final(self).events@.last().parameters@[0].0@ == "is_safe_to_block"@
                &&& final(self).events@.last().parameters@[0].1@ == (if is_safe_to_block {
                    "true"@
                } else {
                    "false"@
                })
            },
    {
        let mut params: Vec<(String, String)> = Vec::new();
        let value = if is_safe_to_block {
            String::from_str("true")
        } else {
            String::from_str("false")
        };
        params.push((String::from_str("is_safe_to_block"), value));

        let event = ValidationEvent {
            timestamp_micros: now_micros,
            event_type: String::from_str("JITCompilationStarted"),
            function_id: Some(function_id),
            module_id: None,
            method_name: None,
            assembly_name: None,
            parameters: params,
        };
        self.log_event(event);
    }

    /// Record a module-load event, with the moment it was observed.
    pub fn log_module_load(&mut self, module_id: u64, assembly_name: Option<String>, now_micros: u64)
        ensures
            final(self).enabled == old(self).enabled,
            !old(self).enabled ==> final(self).events@ == old(self).events@,
            old(self).enabled ==> {
                &&& final(self).events@.len() == old(self).events@.len() + 1
                &&& old(self).events@.is_prefix_of(final(self).events@)
                &&& final(self).events@.last().timestamp_micros == now_micros
                &&& final(self).events@.last().event_type@ == "ModuleLoadFinished"@
                &&& final(self).events@.last().module_id == Some(module_id)
                &&& final(self).events@.last().function_id is None
                &&& final(self).events@.last().parameters@.len() == 0
            },
    {
        let event = ValidationEvent {
            timestamp_micros: now_micros,
            event_type: String::from_str("ModuleLoadFinished"),
            function_id: None,
            module_id: Some(module_id),
            method_name: None,
            assembly_name,
            parameters: Vec::new(),
        };
        self.log_event(event);
    }

    /// The captured events, for export.
    pub fn events(&self) -> (r: &Vec<ValidationEvent>)
        ensures
            r@ == self.captured(),
    {
        &self.events
    }

    /// The number of captured events.
    pub fn count(&self) -> (r: usize)
        ensures
            r == self.captured().len(),
    {
        self.events.len()
    }
}

} // verus!
