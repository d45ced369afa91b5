//! Task self-perception: the kernel infers the kind of task a process runs
//! from its system calls and picks a scheduling strategy from it.

use vstd::prelude::*;

verus! {

/// The five task classes.
#[derive(Debug, Clone, Copy, PartialEq, Eq, Structural)]
pub enum TaskClass {
    /// One-way pipeline: aggressive prefetch, large buffers.
    Compute,
    /// Two-way interaction: small buffers, write-back cache.
    Query,
    /// One-way output: aggressive prefetch, write-through cache.
    Stream,
    /// Balanced.
    Batch,
    /// Default.
    Mixed,
}

impl TaskClass {
    /// Infers the task class from a system-call trace. No rule is in place
    /// yet: every trace gives `Mixed`.
    pub fn from_syscall_pattern(syscalls: &[u64]) -> (r: Self)
        ensures
            r == TaskClass::Mixed,
    {
        let _ = syscalls;
        TaskClass::Mixed
    }
}

/// Scheduling strategy.
#[derive(Debug, PartialEq, Eq, Structural)]
pub enum ScheduleStrategy {
    /// One-way pipeline.
    Unidirectional,
    /// Two-way interaction.
    Bidirectional,
    /// Mixed.
    Mixed,
}

/// The strategy for a task class. A class's causal strength (0.95 for
/// `Compute`, 0.10 for `Query`, 0.90 for `Stream`, 0.50 for `Batch` and
/// `Mixed`) above 0.7 gives the one-way strategy, below 0.3 the two-way one,
/// and anything between the mixed one.
pub open spec fn strategy_for(class: TaskClass) -> ScheduleStrategy {
    match class {
        TaskClass::Compute => ScheduleStrategy::Unidirectional,
        TaskClass::Query => ScheduleStrategy::Bidirectional,
        TaskClass::Stream => ScheduleStrategy::Unidirectional,
        TaskClass::Batch => ScheduleStrategy::Mixed,
        TaskClass::Mixed => ScheduleStrategy::Mixed,
    }
}

/// Task perceptor.
pub struct TaskPerceptor {
    /// Sample window (number of system calls).
    sample_window: usize,
    /// The class identified last.
    current_class: TaskClass,
}

impl TaskPerceptor {
    /// The class identified last.
    pub closed spec fn class(self) -> TaskClass {
        self.current_class
    }

    /// The sample window.
    pub closed spec fn window(self) -> usize {
        self.sample_window
    }

    /// A perceptor with a window of 8 calls and class `Mixed`.
    pub fn new() -> (r: Self)
        ensures
            r.class() == TaskClass::Mixed,
            r.window() == 8,
    {
        TaskPerceptor { sample_window: 8, current_class: TaskClass::Mixed }
    }

    /// Identifies the class of a system-call trace, remembers it and returns it.
    pub fn identify(&mut self, syscalls: &[u64]) -> (r: TaskClass)
        ensures
            r == TaskClass::Mixed,
            final(self).class() == r,
            final(self).window() == old(self).window(),
    {
        self.current_class = TaskClass::from_syscall_pattern(syscalls);
        self.current_class
    }

    /// The class identified last.
    pub fn current_class(&self) -> (r: TaskClass)
        ensures
            r == self.class(),
    {
        self.current_class
    }

    /// The scheduling strategy for the class identified last.
    pub fn select_strategy(&self) -> (r: ScheduleStrategy)
        ensures
            r == strategy_for(self.class()),
    {
        match self.current_class {
            TaskClass::Compute => ScheduleStrategy::Unidirectional,
            TaskClass::Query => ScheduleStrategy::Bidirectional,
            TaskClass::Stream => ScheduleStrategy::Unidirectional,
            TaskClass::Batch => ScheduleStrategy::Mixed,
            TaskClass::Mixed => ScheduleStrategy::Mixed,
        }
    }
}

} // verus!
