//! The text editor's decisions: what it holds after a file is loaded or
//! typed into, when it may reset or save, and what saving reports.

use vstd::prelude::*;
use crate::text::{chars_eq, chars_of, concat, copy_string};

verus! {

/// The editor of the selected text file.
pub struct TextEditorState {
    /// A text file is selected.
    pub has_file: bool,
    /// The text being edited.
    pub draft: String,
    /// The text as last loaded or saved.
    pub saved: String,
    /// A save is under way.
    pub saving: bool,
    /// Why the file could not be loaded.
    pub load_error: Option<String>,
}

/// Mathematical form of a [`TextEditorState`].
pub struct EditorView {
    pub has_file: bool,
    pub draft: Seq<char>,
    pub saved: Seq<char>,
    pub saving: bool,
    pub load_error: Option<Seq<char>>,
}

impl View for TextEditorState {
    type V = EditorView;

    open spec fn view(&self) -> EditorView {
        EditorView {
            has_file: self.has_file,
            draft: self.draft@,
            saved: self.saved@,
            saving: self.saving,
            load_error: match self.load_error {
                Some(e) => Some(e@),
                None => None,
            },
        }
    }
}

/// The draft differs from the saved text.
pub open spec fn editor_dirty(v: EditorView) -> bool {
    v.draft != v.saved
}

/// Writing is allowed: a file is selected, it loaded, and no save is under way.
pub open spec fn editor_can_write(v: EditorView) -> bool {
    v.has_file && v.load_error is None && !v.saving
}

impl TextEditorState {
    /// An editor with no file.
    pub fn new() -> (r: TextEditorState)
        ensures
            r@ == (EditorView { has_file: false, draft: Seq::empty(), saved: Seq::empty(), saving: false, load_error: None }),
    {
        TextEditorState { has_file: false, draft: String::new(), saved: String::new(), saving: false, load_error: None }
    }

    /// The selected file (or none) was read: its text becomes both the saved
    /// text and the draft; a read error empties both and is kept.
    pub fn loaded(&mut self, has_file: bool, result: Result<String, String>)
        ensures
            final(self)@ == (match result {
                Ok(t) => EditorView { has_file, draft: t@, saved: t@, load_error: None, ..old(self)@ },
                Err(e) => EditorView {
                    has_file,
                    draft: Seq::empty(),
                    saved: Seq::empty(),
                    load_error: Some(e@),
                    ..old(self)@
                },
            }),
    {
        self.has_file = has_file;
        match result {
            Ok(t) => {
                self.saved = copy_string(&t);
                self.draft = t;
                self.load_error = None;
            },
            Err(e) => {
                self.saved = String::new();
                self.draft = String::new();
                self.load_error = Some(e);
            },
        }
    }

    /// The user typed: the draft becomes the text.
    pub fn input(&mut self, text: String)
        ensures
            final(self)@ == (EditorView { draft: text@, ..old(self)@ }),
    {
        self.draft = text;
    }

    /// Unsaved changes exist.
    pub fn is_dirty(&self) -> (r: bool)
        ensures
            r == editor_dirty(self@),
    {
        !chars_eq(chars_of(self.draft.as_str()).as_slice(), chars_of(self.saved.as_str()).as_slice())
    }

    /// Writing is allowed.
    pub fn can_write(&self) -> (r: bool)
        ensures
            r == editor_can_write(self@),
    {
        self.has_file && self.load_error.is_none() && !self.saving
    }

    /// Resets the draft to the saved text when writing is allowed, giving the
    /// status to show; else nothing changes.
    pub fn reset(&mut self) -> (r: Option<String>)
        ensures
            editor_can_write(old(self)@) ==> (final(self)@ == (EditorView { draft: old(self)@.saved, ..old(self)@ })
                && (r matches Some(s) && s@ == "已重置未保存的修改"@)),
            !editor_can_write(old(self)@) ==> final(self)@ == old(self)@ && r is None,
    {
        if !self.can_write() {
            return None;
        }
        self.draft = copy_string(&self.saved);
        Some("已重置未保存的修改".to_owned())
    }

    /// Starts a save when writing is allowed and there are changes: the
    /// editor becomes busy and gives the text to write; else nothing changes.
    pub fn begin_save(&mut self) -> (r: Option<String>)
        ensures
            editor_can_write(old(self)@) && editor_dirty(old(self)@) ==> (final(self)@ == (EditorView {
                saving: true,
                ..old(self)@
            }) && (r matches Some(c) && c@ == old(self)@.draft)),
            !(editor_can_write(old(self)@) && editor_dirty(old(self)@)) ==> final(self)@ == old(self)@ && r is None,
    {
        if !self.can_write() || !self.is_dirty() {
            return None;
        }
        self.saving = true;
        Some(copy_string(&self.draft))
    }

    /// A save of `content` ended: on success the content becomes the saved
    /// text; either way the editor is no longer busy. Gives the status to
    /// show: `已保存：` and the file name, or `保存失败：` and the error.
    pub fn finish_save(&mut self, content: String, name: &str, result: Result<(), String>) -> (r: String)
        ensures
            final(self)@ == (match result {
                Ok(()) => EditorView { saved: content@, saving: false, ..old(self)@ },
                Err(_) => EditorView { saving: false, ..old(self)@ },
            }),
            r@ == match result {
                Ok(()) => "已保存："@ + name@,
                Err(e) => "保存失败："@ + e@,
            },
    {
        self.saving = false;
        match result {
            Ok(()) => {
                self.saved = content;
                concat("已保存：", name)
            },
            Err(e) => concat("保存失败：", e.as_str()),
        }
    }
}

} // verus!
