//! Values that can describe themselves in a line of text.

use crate::decimal::{decimal, decimal_text};
use vstd::prelude::*;
use vstd::string::StringExecFns;

verus! {

/// A value that can sum itself up in a line.
pub trait Summary {
    /// The summary. A type that writes none of its own says that none is
    /// available.
    fn summarize(&self) -> (summary: String)
        default_ensures
            summary@ == "No summary available"@,
    {
        String::from_str("No summary available")
    }
}

/// A value that can say how it is put right.
pub trait Fix {
    /// The remedy. A type that writes none of its own says that none is
    /// available.
    fn fix(&self) -> (remedy: String)
        default_ensures
            remedy@ == "No fix available"@,
    {
        String::from_str("No fix available")
    }
}

/// A user by name and age.
pub struct User {
    pub name: String,
    pub age: u32,
}

/// A user of whom nothing is known.
pub struct DefaultUser {}

impl Summary for User {
    /// The name, then the age in years.
    fn summarize(&self) -> (summary: String)
        ensures
            summary@ == self.name@ + " is "@ + decimal_text(self.age as nat) + " years old"@,
    {
        let mut summary: String = self.name.clone();
        summary.append(" is ");
        summary.append(decimal(self.age).as_str());
        summary.append(" years old");
        summary
    }
}

impl Fix for User {
    /// Names the user that is being put right.
    fn fix(&self) -> (remedy: String)
        ensures
            remedy@ == "Fixing user: "@ + self.name@,
    {
        let mut remedy: String = String::from_str("Fixing user: ");
        remedy.append(self.name.as_str());
        remedy
    }
}

impl Summary for DefaultUser {

}

/// The notification line for a summary.
pub fn notification(summary: &str) -> (line: String)
    ensures
        line@ == "New notification: "@ + summary@,
{
    let mut line: String = String::from_str("New notification: ");
    line.append(summary);
    line
}

/// The line that offers a remedy.
pub fn fix_offer(remedy: &str) -> (line: String)
    ensures
        line@ == "Fix available: "@ + remedy@,
{
    let mut line: String = String::from_str("Fix available: ");
    line.append(remedy);
    line
}

/// The notification line for `item`: the notification of one of the
/// summaries that `item` gives of itself.
pub fn notify<T: Summary>(item: &T) -> (line: String)
    ensures
        exists|summary: String|
            call_ensures(T::summarize, (item,), summary) && line@ == "New notification: "@
                + summary@,
{
    let summary: String = item.summarize();
    notification(summary.as_str())
}

/// The two lines for an item that can be summed up and put right: its
/// notification, then the offer of its remedy.
pub fn notify_fix<T: Summary + Fix>(item: T) -> (lines: (String, String))
    ensures
        exists|summary: String|
            call_ensures(T::summarize, (&item,), summary) && lines.0@ == "New notification: "@
                + summary@,
        exists|remedy: String|
            call_ensures(T::fix, (&item,), remedy) && lines.1@ == "Fix available: "@ + remedy@,
{
    let summary: String = item.summarize();
    let remedy: String = item.fix();
    (notification(summary.as_str()), fix_offer(remedy.as_str()))
}

} // verus!
