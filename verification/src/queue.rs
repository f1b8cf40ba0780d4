use crate::error::Error;
use vstd::prelude::*;

verus! {

/// A unit of work that a pool of workers can run.
///
/// `run` may yield nothing: the task then legitimately produced no output,
/// and a worker forwards nothing for it.
pub trait Task {
    /// What the task yields.
    type Output: Send;

    /// Does the work.
    fn run(&self) -> Option<Self::Output>;
}

/// What a worker does with what a task yielded.
#[derive(Debug, Clone, Copy, PartialEq, Eq, Structural)]
pub enum Delivery {
    /// Send the output on; the task reported.
    Forward,
    /// Send nothing and take the next task.
    Skip,
}

/// Decides whether a worker forwards the outcome of a task: it does exactly
/// when the task yielded an output.
pub fn delivery_of<T>(outcome: &Option<T>) -> (delivery: Delivery)
    ensures
        delivery == (if outcome is Some {
            Delivery::Forward
        } else {
            Delivery::Skip
        }),
{
    match outcome {
        Some(_) => Delivery::Forward,
        None => Delivery::Skip,
    }
}

/// The life of a queue as plain values.
pub struct QueueControlView {
    /// The number of workers, fixed when the queue is made.
    pub workers: usize,
    /// Whether tasks are still accepted.
    pub open: bool,
}

impl QueueControlView {
    /// The state after a shutdown.
    pub open spec fn closed(self) -> QueueControlView {
        QueueControlView { open: false, ..self }
    }

    /// The number of workers that a shutdown in this state has to wait for.
    pub open spec fn joins_on_close(self) -> usize {
        if self.open {
            self.workers
        } else {
            0
        }
    }
}

/// The sending end of an `spmc` channel, `spmc::Sender`: carried, never
/// looked into.
#[verifier::external_type_specification]
#[verifier::external_body]
#[verifier::reject_recursive_types(T)]
pub struct ExTaskSender<T: Send>(spmc::Sender<T>);

/// A receiving end of an `spmc` channel, `spmc::Receiver`: carried, never
/// looked into.
#[verifier::external_type_specification]
#[verifier::external_body]
#[verifier::reject_recursive_types(T)]
pub struct ExTaskReceiver<T: Send>(spmc::Receiver<T>);

/// Calls `spmc::channel`, which makes the two ends of a new channel. Nothing
/// is claimed of them.
#[verifier::external_body]
fn task_channel<T: Send>() -> (ends: (spmc::Sender<T>, spmc::Receiver<T>)) {
    spmc::channel()
}

/// Calls `Sender::send` of `spmc` and tells whether the channel took the
/// task. The channel refuses a task once every receiving end is gone; nothing
/// is claimed of when that is.
#[verifier::external_body]
fn send_task<T: Send>(sender: &mut spmc::Sender<T>, task: T) -> (sent: bool) {
    sender.send(task).is_ok()
}

/// What `enqueue` answers, given whether the queue was open and whether the
/// channel took the task: the task is in exactly when both hold, and is
/// refused with `QueueClosed` otherwise.
pub fn enqueue_outcome(open: bool, sent: bool) -> (result: Result<(), Error>)
    ensures
        result == (if open && sent {
            Ok::<(), Error>(())
        } else {
            Err::<(), Error>(Error::QueueClosed)
        }),
{
    if open && sent {
        Ok(())
    } else {
        Err(Error::QueueClosed)
    }
}

/// The input side of a work queue: the number of its workers, the channel
/// that hands each task to one of them, and whether tasks are still
/// accepted. The queue is open exactly as long as it holds the sending end.
#[verifier::reject_recursive_types(T)]
pub struct QueueControl<T: Send> {
    workers: usize,
    send_tasks: Option<spmc::Sender<T>>,
    recv_tasks: spmc::Receiver<T>,
}

impl<T: Send> View for QueueControl<T> {
    type V = QueueControlView;

    closed spec fn view(&self) -> QueueControlView {
        QueueControlView { workers: self.workers, open: self.send_tasks is Some }
    }
}

impl<T: Send> QueueControl<T> {
    /// An open queue of `n_workers` workers with a new task channel; a queue
    /// without workers is refused.
    pub fn new(n_workers: usize) -> (result: Result<QueueControl<T>, Error>)
        ensures
            match result {
                Ok(control) => n_workers > 0 && control@ == (QueueControlView {
                    workers: n_workers,
                    open: true,
                }),
                Err(e) => n_workers == 0 && e == Error::ConfigurationError,
            },
    {
        if n_workers == 0 {
            Err(Error::ConfigurationError)
        } else {
            let (send_tasks, recv_tasks) = task_channel();
            Ok(QueueControl { workers: n_workers, send_tasks: Some(send_tasks), recv_tasks })
        }
    }

    /// The number of workers.
    pub fn workers(&self) -> (n: usize)
        ensures
            n == self@.workers,
    {
        self.workers
    }

    /// Whether tasks are still accepted.
    pub fn is_open(&self) -> (open: bool)
        ensures
            open == self@.open,
    {
        self.send_tasks.is_some()
    }

    /// The queue's own receiving end of the task channel, the same at every
    /// call: the workers take tasks from it and a shutdown empties it.
    pub fn tasks(&self) -> (end: &spmc::Receiver<T>)
        ensures
            *end == self.receiving_end(),
    {
        &self.recv_tasks
    }

    /// The receiving end of the queue's task channel. It is made with the
    /// queue and stays the same end through every `enqueue` and `close`.
    pub closed spec fn receiving_end(&self) -> spmc::Receiver<T> {
        self.recv_tasks
    }

    /// Hands a task to the workers. A queue that is shutting down or shut
    /// down takes no task; an open one passes it to the channel, and the task
    /// is refused only if the channel refuses it.
    pub fn enqueue(&mut self, task: T) -> (result: Result<(), Error>)
        ensures
            final(self)@ == old(self)@,
            final(self).receiving_end() == old(self).receiving_end(),
            !old(self)@.open ==> result == Err::<(), Error>(Error::QueueClosed),
            result is Err ==> result == Err::<(), Error>(Error::QueueClosed),
    {
        match self.send_tasks.take() {
            Some(mut sender) => {
                let sent = send_task(&mut sender, task);
                self.send_tasks = Some(sender);
                enqueue_outcome(true, sent)
            },
            None => enqueue_outcome(false, false),
        }
    }

    /// Begins a shutdown: gives up the sending end, so that the channel runs
    /// dry, and tells how many workers to wait for, all of them the first
    /// time and none after that.
    pub fn close(&mut self) -> (to_join: usize)
        ensures
            final(self)@ == old(self)@.closed(),
            final(self).receiving_end() == old(self).receiving_end(),
            to_join == old(self)@.joins_on_close(),
    {
        let to_join: usize = if self.send_tasks.is_some() {
            self.workers
        } else {
            0
        };
        self.send_tasks = None;
        to_join
    }
}

/// A shutdown is idempotent: a second one leaves the state as the first left
/// it and waits for no worker, and no task is accepted after either.
pub proof fn lemma_shutdown_idempotent(state: QueueControlView)
    ensures
        state.closed().closed() == state.closed(),
        state.closed().joins_on_close() == 0,
        !state.closed().open,
{
}

} // verus!
