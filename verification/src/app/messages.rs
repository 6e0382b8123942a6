//! From keys to messages, and from messages to what the session does.

use super::App;
use crate::app_model::{message_for, save_if, Effect, Key, Message, UIState};
use crate::list_item::{drawn, ListItem, ID_LENGTH};
use vstd::prelude::*;

verus! {

impl App {
    /// The message that `key` stands for on the screen that is shown.
    pub fn handle_key(&self, key: Key) -> (message: Option<Message>)
        ensures
            message == message_for(self@.state, key),
    {
        match key {
            Key::Esc => Some(Message::Esc),
            Key::Enter => Some(Message::Enter),
            Key::Up => Some(Message::Up),
            Key::Down => Some(Message::Down),
            Key::Left => Some(Message::Left),
            Key::Right => Some(Message::Right),
            Key::Backspace => Some(Message::Backspace),
            Key::Char(c) => match self.state {
                UIState::ListView => match c {
                    ' ' => Some(Message::Space),
                    'e' => Some(Message::Edit),
                    'n' => Some(Message::New),
                    'i' => Some(Message::InsertChild),
                    'd' => Some(Message::Delete),
                    'j' => Some(Message::FocusOnCurrentItem),
                    'u' => Some(Message::FocusOnParentItem),
                    'c' => Some(Message::Copy),
                    'x' => Some(Message::Cut),
                    'v' => Some(Message::Paste),
                    _ => None,
                },
                UIState::EditView => Some(Message::Text(c)),
            },
            Key::Other => None,
        }
    }

    /// Handles one message and says what the caller has to do next.
    /// `fresh_id` is the identifier that a new item gets, if the message
    /// asks for one.
    pub fn handle_message_with(&mut self, message: Message, fresh_id: String) -> (effect: Effect)
        requires
            old(self).wf(),
        ensures
            final(self).wf(),
            final(self)@ == old(self)@.stepped(message, fresh_id@),
            effect == old(self)@.effect_of(message, fresh_id@),
    {
        match self.state {
            UIState::ListView => match message {
                Message::Esc => Effect::Quit,
                Message::Down => {
                    self.handle_scroll(Message::Down);
                    Effect::Continue
                },
                Message::Up => {
                    self.handle_scroll(Message::Up);
                    Effect::Continue
                },
                Message::Enter => {
                    self.handle_expand();
                    Effect::Continue
                },
                Message::FocusOnCurrentItem => {
                    self.focus_on_current();
                    Effect::Continue
                },
                Message::FocusOnParentItem => {
                    self.focus_on_parent();
                    Effect::Continue
                },
                Message::Copy => {
                    self.copy();
                    Effect::Continue
                },
                Message::Cut => {
                    self.cut();
                    Effect::Continue
                },
                Message::Paste => Self::save_when(self.paste()),
                Message::Delete => Self::save_when(self.delete_selected_item()),
                Message::New => Self::save_when(self.add_new_list_item_with(fresh_id)),
                Message::InsertChild => Self::save_when(self.insert_child_item_with(fresh_id)),
                Message::Space => Self::save_when(self.toggle_item_completion()),
                Message::Edit => {
                    self.toggle_edit_mode();
                    Effect::Continue
                },
                Message::Text(c) => {
                    self.handle_text_input(c);
                    Effect::Continue
                },
                _ => Effect::Continue,
            },
            UIState::EditView => match message {
                Message::Esc => {
                    self.toggle_edit_mode();
                    Effect::Continue
                },
                Message::Enter => Self::save_when(self.save_edited_text()),
                Message::Left => {
                    self.handle_cursor_left();
                    Effect::Continue
                },
                Message::Right => {
                    self.handle_cursor_right();
                    Effect::Continue
                },
                Message::Backspace => {
                    self.handle_backspace();
                    Effect::Continue
                },
                Message::Text(c) => {
                    self.handle_text_input(c);
                    Effect::Continue
                },
                _ => Effect::Continue,
            },
        }
    }

    /// Handles one message and says what the caller has to do next. A new
    /// item, if the message asks for one, gets a freshly drawn identifier.
    pub fn handle_message(&mut self, message: Message) -> (effect: Effect)
        requires
            old(self).wf(),
        ensures
            final(self).wf(),
            exists|id: Seq<char>| #[trigger] drawn(id) && final(self)@
                    == old(self)@.stepped(message, id) && effect == old(self)@.effect_of(
                    message,
                    id,
                ),
    {
        let id = ListItem::random_string_from_chars(ID_LENGTH);
        let ghost fresh = id@;
        let effect = self.handle_message_with(message, id);
        assert(drawn(fresh) && self@ == old(self)@.stepped(message, fresh) && effect
            == old(self)@.effect_of(message, fresh));
        effect
    }

    /// `Save` if something changed, `Continue` if not.
    fn save_when(changed: bool) -> (effect: Effect)
        ensures
            effect == save_if(changed),
    {
        if changed {
            Effect::Save
        } else {
            Effect::Continue
        }
    }
}

} // verus!
