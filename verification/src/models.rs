//! Plain data records shared by the TargetProcess logic.
use vstd::prelude::*;

verus! {

/// A Task or Bug assigned to me, plus its parent User Story.
#[derive(Debug)]
pub struct WorkItem {
    pub id: i64,
    pub name: String,
    /// `"Tasks"` or `"Bugs"` (the collection it came from).
    pub entity_type: String,
    /// `"Task"` or `"Bug"`.
    pub display_type: String,
    pub state_id: i64,
    pub state_name: String,
    pub is_final: bool,
    pub project_name: String,
    pub process_id: i64,
    pub sprint: String,
    pub us_id: i64,
    pub us_name: String,
}

/// A named meeting shortcut that logs to a fixed task.
#[derive(Debug)]
pub struct DynamicMeeting {
    pub id: String,
    pub name: String,
    pub task_id: i64,
    pub description: String,
}

/// A time entry logged automatically once per working day.
#[derive(Debug)]
pub struct RecurringEntry {
    pub id: String,
    pub label: String,
    pub task_id: i64,
    /// The hour count as the bit pattern of an IEEE-754 `f64`; the library
    /// never computes with it, it only carries it to the logging call.
    pub hours_bits: u64,
}

impl Clone for WorkItem {
    fn clone(&self) -> (r: Self)
        ensures
            r == *self,
    {
        WorkItem {
            id: self.id,
            name: self.name.clone(),
            entity_type: self.entity_type.clone(),
            display_type: self.display_type.clone(),
            state_id: self.state_id,
            state_name: self.state_name.clone(),
            is_final: self.is_final,
            project_name: self.project_name.clone(),
            process_id: self.process_id,
            sprint: self.sprint.clone(),
            us_id: self.us_id,
            us_name: self.us_name.clone(),
        }
    }
}

impl Clone for DynamicMeeting {
    fn clone(&self) -> (r: Self)
        ensures
            r == *self,
    {
        DynamicMeeting {
            id: self.id.clone(),
            name: self.name.clone(),
            task_id: self.task_id,
            description: self.description.clone(),
        }
    }
}

impl Clone for RecurringEntry {
    fn clone(&self) -> (r: Self)
        ensures
            r == *self,
    {
        RecurringEntry {
            id: self.id.clone(),
            label: self.label.clone(),
            task_id: self.task_id,
            hours_bits: self.hours_bits,
        }
    }
}

} // verus!
