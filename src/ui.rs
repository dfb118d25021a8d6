//! Navigation state of the debugger's interface.
use vstd::prelude::*;

verus! {

/// Current view in the debugger.
#[derive(Clone, Copy, Debug, PartialEq, Eq, Structural)]
pub enum View {
    Home,
    Schema,
    Timeline,
    Diagnose,
    Recover,
    Help,
}

/// Application state.
pub struct App {
    pub running: bool,
    pub view: View,
    pub connected: bool,
    pub connection_string: Option<String>,
    pub db_type: String,
    pub status_message: String,
}

/// A constraint with its status, as listed to the operator.
pub struct ConstraintNode {
    pub name: String,
    pub constraint_type: String,
    pub satisfied: bool,
    pub violation_message: Option<String>,
}

/// The view a key selects, if it selects one.
pub open spec fn view_for_key(key: char) -> Option<View> {
    if key == 'h' {
        Some(View::Home)
    } else if key == 's' {
        Some(View::Schema)
    } else if key == 't' {
        Some(View::Timeline)
    } else if key == 'd' {
        Some(View::Diagnose)
    } else if key == 'r' {
        Some(View::Recover)
    } else if key == '?' {
        Some(View::Help)
    } else {
        None
    }
}

impl Default for App {
    fn default() -> (r: Self)
        ensures
            r.running,
            r.view == View::Home,
            !r.connected,
            r.connection_string is None,
            vstd::view::View::view(&r.db_type) == vstd::view::View::view(&"formdb"),
            vstd::view::View::view(&r.status_message) == vstd::view::View::view(&"Ready"),
    {
        App::new()
    }
}

impl App {
    /// A running app on the home view, not connected, for a FormDB database.
    pub fn new() -> (r: Self)
        ensures
            r.running,
            r.view == View::Home,
            !r.connected,
            r.connection_string is None,
            vstd::view::View::view(&r.db_type) == vstd::view::View::view(&"formdb"),
            vstd::view::View::view(&r.status_message) == vstd::view::View::view(&"Ready"),
    {
        App {
            running: true,
            view: View::Home,
            connected: false,
            connection_string: None,
            db_type: String::from_str("formdb"),
            status_message: String::from_str("Ready"),
        }
    }

    /// Handles a key: `q` stops the app, a view key switches the view, any
    /// other key changes nothing.
    pub fn on_key(&mut self, key: char)
        ensures
            final(self).running == (old(self).running && key != 'q'),
            final(self).view == match view_for_key(key) {
                Some(v) => v,
                None => old(self).view,
            },
            final(self).connected == old(self).connected,
            final(self).connection_string == old(self).connection_string,
            final(self).db_type == old(self).db_type,
            final(self).status_message == old(self).status_message,
    {
        match key {
            'q' => self.running = false,
            'h' => self.view = View::Home,
            's' => self.view = View::Schema,
            't' => self.view = View::Timeline,
            'd' => self.view = View::Diagnose,
            'r' => self.view = View::Recover,
            '?' => self.view = View::Help,
            _ => {},
        }
    }
}

} // verus!
