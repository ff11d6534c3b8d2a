//! The client-side chat log data model.
//!
//! A log entry is either system-originated or user-originated.  The variant
//! set is fixed and small, so the log stores a closed tagged variant rather
//! than dispatching through conversions.  Rendering reads each entry back as
//! an author line and a text line; a system entry's author is always the
//! fixed name `SYSTEM`.

use vstd::prelude::*;

use vstd::string::StringExecFns;

verus! {

/// The mathematical value of a chat entry.
#[verifier::ext_equal]
pub enum ChatEntryView {
    SystemEntry { text: Seq<char> },
    UserEntry { user: Seq<char>, text: Seq<char> },
}

/// One line of the chat log: a system notice or a user's message.
#[derive(Clone, PartialEq, Eq, Debug)]
pub enum ChatEntry {
    SystemEntry { text: String },
    UserEntry { user: String, text: String },
}

impl View for ChatEntry {
    type V = ChatEntryView;

    open spec fn view(&self) -> ChatEntryView {
        match self {
            ChatEntry::SystemEntry { text } => ChatEntryView::SystemEntry { text: text@ },
            ChatEntry::UserEntry { user, text } => ChatEntryView::UserEntry {
                user: user@,
                text: text@,
            },
        }
    }
}

impl DeepView for ChatEntry {
    type V = ChatEntryView;

    open spec fn deep_view(&self) -> ChatEntryView {
        self@
    }
}

/// The author line an entry renders with: the fixed name `SYSTEM` for a
/// system entry, the user's name otherwise.
pub open spec fn author_of(e: ChatEntryView) -> Seq<char> {
    match e {
        ChatEntryView::SystemEntry { .. } => "SYSTEM"@,
        ChatEntryView::UserEntry { user, .. } => user,
    }
}

/// The text line an entry renders with.
pub open spec fn text_of(e: ChatEntryView) -> Seq<char> {
    match e {
        ChatEntryView::SystemEntry { text } => text,
        ChatEntryView::UserEntry { text, .. } => text,
    }
}

impl ChatEntry {
    /// A system-originated entry.
    pub fn system(text: String) -> (e: ChatEntry)
        ensures
            e@ == (ChatEntryView::SystemEntry { text: text@ }),
    {
        ChatEntry::SystemEntry { text }
    }

    /// A user-originated entry.
    pub fn user(user: String, text: String) -> (e: ChatEntry)
        ensures
            e@ == (ChatEntryView::UserEntry { user: user@, text: text@ }),
    {
        ChatEntry::UserEntry { user, text }
    }

    /// The author line of this entry.
    pub fn get_author(&self) -> (r: String)
        ensures
            r@ == author_of(self@),
    {
        match self {
            ChatEntry::SystemEntry { .. } => String::from_str("SYSTEM"),
            ChatEntry::UserEntry { user, .. } => user.clone(),
        }
    }

    /// The text line of this entry.
    pub fn get_text(&self) -> (r: String)
        ensures
            r@ == text_of(self@),
    {
        match self {
            ChatEntry::SystemEntry { text } => text.clone(),
            ChatEntry::UserEntry { text, .. } => text.clone(),
        }
    }
}

/// The chat log a client renders: entries in arrival order.
pub struct ChatLog {
    entries: Vec<ChatEntry>,
}

impl View for ChatLog {
    type V = Seq<ChatEntryView>;

    closed spec fn view(&self) -> Seq<ChatEntryView> {
        self.entries.deep_view()
    }
}

impl ChatLog {
    /// An empty log.
    pub fn new() -> (log: ChatLog)
        ensures
            log@ == Seq::<ChatEntryView>::empty(),
    {
        let log = ChatLog { entries: Vec::new() };
        proof {
            assert(log@ =~= Seq::<ChatEntryView>::empty());
        }
        log
    }

    /// Appends one entry at the end.
    pub fn add(&mut self, entry: ChatEntry)
        ensures
            final(self)@ == old(self)@.push(entry@),
    {
        let ghost dv = self@;
        self.entries.push(entry);
        proof {
            assert(self@ =~= dv.push(entry@));
        }
    }

    /// How many entries the log holds.
    pub fn len(&self) -> (n: usize)
        ensures
            n == self@.len(),
    {
        self.entries.len()
    }

    /// The entry at position `i`, oldest first.
    pub fn get(&self, i: usize) -> (e: &ChatEntry)
        requires
            i < self@.len(),
        ensures
            e@ == self@[i as int],
    {
        &self.entries[i]
    }
}

} // verus!
