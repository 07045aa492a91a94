//! The state of the interactive front end: a tempo counter and an exit
//! flag. The rendering loop lives outside the library; it feeds key
//! presses in as plain [`Key`] values and reads the state back to draw.

use vstd::prelude::*;

verus! {

/// A key press, as far as the state machine reads it.
#[derive(Clone, Copy, Debug, PartialEq, Eq, Structural)]
pub enum Key {
    Char(char),
    Left,
    Right,
    Other,
}

/// The interactive front end's state.
#[derive(Clone, Copy, Debug, PartialEq, Eq, Structural)]
pub struct App {
    pub tempo: u16,
    pub exit: bool,
}

/// What one key press does to the state: `q` asks to exit, the left and
/// right arrows step the tempo counter, anything else is ignored.
pub open spec fn key_response(app: App, key: Key) -> App {
    match key {
        Key::Char(c) => if c == 'q' {
            App { exit: true, ..app }
        } else {
            app
        },
        Key::Left => App { tempo: (app.tempo - 1) as u16, ..app },
        Key::Right => App { tempo: (app.tempo + 1) as u16, ..app },
        Key::Other => app,
    }
}

impl App {
    /// Ask the front end to stop.
    pub fn exit(&mut self)
        ensures
            final(self).exit,
            final(self).tempo == old(self).tempo,
    {
        self.exit = true;
    }

    /// Step the tempo counter up.
    pub fn increment_counter(&mut self)
        requires
            old(self).tempo < 0xFFFF,
        ensures
            final(self).tempo == old(self).tempo + 1,
            final(self).exit == old(self).exit,
    {
        self.tempo = self.tempo + 1;
    }

    /// Step the tempo counter down.
    pub fn decrement_counter(&mut self)
        requires
            old(self).tempo > 0,
        ensures
            final(self).tempo == old(self).tempo - 1,
            final(self).exit == old(self).exit,
    {
        self.tempo = self.tempo - 1;
    }

    /// Advance the state by one key press.
    pub fn handle_key_event(&mut self, key: Key)
        requires
            key is Left ==> old(self).tempo > 0,
            key is Right ==> old(self).tempo < 0xFFFF,
        ensures
            *final(self) == key_response(*old(self), key),
    {
        match key {
            Key::Char(c) => {
                if c == 'q' {
                    self.exit();
                }
            },
            Key::Left => self.decrement_counter(),
            Key::Right => self.increment_counter(),
            Key::Other => {},
        }
    }
}

impl Default for App {
    /// The starting state: tempo counter at zero, not exiting.
    fn default() -> (r: App)
        ensures
            r.tempo == 0,
            !r.exit,
    {
        App { tempo: 0, exit: false }
    }
}

} // verus!
