//! The viewer's passive widgets: what each one shows.
use crate::app_data::Logger;
use vstd::prelude::*;

verus! {

/// A page that shows a title and a subtitle in the middle of the window.
pub struct StatusPage<'a> {
    pub title: &'a str,
    pub subtitle: &'a str,
}

impl<'a> StatusPage<'a> {
    pub fn new(title: &'a str, subtitle: &'a str) -> (r: Self)
        ensures
            r.title == title,
            r.subtitle == subtitle,
    {
        Self { title, subtitle }
    }

    /// The page shown while no file is open.
    pub fn status_no_file() -> (r: Self)
        ensures
            r.title@ == "No File"@,
            r.subtitle@ == "Drop a file here or pick one from the menu."@,
    {
        Self::new("No File", "Drop a file here or pick one from the menu.")
    }
}

/// A scrolling view of the lines of a log.
pub struct LogView<'a> {
    pub logger: &'a Logger,
}

impl<'a> LogView<'a> {
    pub fn new(logger: &'a Logger) -> (r: Self)
        ensures
            r.logger == logger,
    {
        Self { logger }
    }
}

} // verus!
