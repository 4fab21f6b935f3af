//! What a controller asks of a pilot, and what a pilot says.

use vstd::prelude::*;

use crate::geometry::CompassPoint;
use crate::names::Name;
use crate::pathfinder::Node;

verus! {

/// One instruction of a controller.
#[derive(Clone, Debug, PartialEq, Eq)]
pub enum Task {
    Altitude(i64),
    Direct(Name),
    Frequency(i64),
    GoAround,
    Heading(i64),
    Ident,
    Land(Name),
    NamedFrequency(Name),
    ResumeOwnNavigation,
    Speed(i64),
    Takeoff(Name),
    Taxi(Vec<Node<()>>),
    TaxiContinue,
    TaxiHold,
    LineUp(Name),
    Delete,
}

/// The mathematical value of a `Task`.
pub enum TaskView {
    Altitude(i64),
    Direct(Name),
    Frequency(i64),
    GoAround,
    Heading(i64),
    Ident,
    Land(Name),
    NamedFrequency(Name),
    ResumeOwnNavigation,
    Speed(i64),
    Takeoff(Name),
    Taxi(Seq<Node<()>>),
    TaxiContinue,
    TaxiHold,
    LineUp(Name),
    Delete,
}

impl View for Task {
    type V = TaskView;

    open spec fn view(&self) -> TaskView {
        match *self {
            Task::Altitude(x) => TaskView::Altitude(x),
            Task::Direct(x) => TaskView::Direct(x),
            Task::Frequency(x) => TaskView::Frequency(x),
            Task::GoAround => TaskView::GoAround,
            Task::Heading(x) => TaskView::Heading(x),
            Task::Ident => TaskView::Ident,
            Task::Land(x) => TaskView::Land(x),
            Task::NamedFrequency(x) => TaskView::NamedFrequency(x),
            Task::ResumeOwnNavigation => TaskView::ResumeOwnNavigation,
            Task::Speed(x) => TaskView::Speed(x),
            Task::Takeoff(x) => TaskView::Takeoff(x),
            Task::Taxi(x) => TaskView::Taxi(x@),
            Task::TaxiContinue => TaskView::TaxiContinue,
            Task::TaxiHold => TaskView::TaxiHold,
            Task::LineUp(x) => TaskView::LineUp(x),
            Task::Delete => TaskView::Delete,
        }
    }
}

/// The instructions of one transmission.
pub type Tasks = Vec<Task>;

/// The values of a list of tasks.
pub open spec fn tasks_view(tasks: Seq<Task>) -> Seq<TaskView> {
    tasks.map_values(|t: Task| t@)
}

/// What a pilot says.
#[derive(Clone, Copy, Debug, PartialEq, Eq)]
pub enum CommandReply {
    Empty,
    ReadyForTaxi { gate: Name },
    ArriveInAirspace { direction: CompassPoint, altitude: i64 },
    TARAResolved { assigned_alt: i64 },
}

/// A transmission: who speaks, on which frequency, what is said and what is
/// asked.
#[derive(Clone, Debug, PartialEq, Eq)]
pub struct CommandWithFreq {
    pub id: Name,
    pub frequency: i64,
    pub reply: CommandReply,
    pub tasks: Tasks,
}

/// The mathematical value of a transmission.
pub struct CommandWithFreqView {
    pub id: Name,
    pub frequency: i64,
    pub reply: CommandReply,
    pub tasks: Seq<TaskView>,
}

impl View for CommandWithFreq {
    type V = CommandWithFreqView;

    open spec fn view(&self) -> CommandWithFreqView {
        CommandWithFreqView {
            id: self.id,
            frequency: self.frequency,
            reply: self.reply,
            tasks: tasks_view(self.tasks@),
        }
    }
}

impl CommandWithFreqView {
    /// A transmission that asks nothing.
    pub open spec fn saying(id: Name, frequency: i64, reply: CommandReply) -> CommandWithFreqView {
        CommandWithFreqView { id, frequency, reply, tasks: Seq::empty() }
    }
}

impl CommandWithFreq {
    /// A transmission.
    pub fn new(id: Name, frequency: i64, reply: CommandReply, tasks: Tasks) -> (r: CommandWithFreq)
        ensures
            r@ == (CommandWithFreqView { id, frequency, reply, tasks: tasks_view(tasks@) }),
    {
        CommandWithFreq { id, frequency, reply, tasks }
    }
}

} // verus!
