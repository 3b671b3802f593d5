//! The table of the editor's embedded terminals: the ids it hands out, the
//! window size of each terminal, and the errors for an unknown id. The
//! pseudo-terminal and the shell process behind each entry are handled by
//! the application, which keeps them as the entry's handle.
use vstd::prelude::*;

use std::collections::HashMap;

verus! {

broadcast use vstd::std_specs::hash::group_hash_axioms;

/// The window size of a terminal, in character cells.
#[derive(Clone, Copy, Debug, PartialEq, Eq, Structural)]
pub struct TerminalSize {
    pub rows: u16,
    pub cols: u16,
}

/// The size a new terminal starts with: 24 rows of 80 columns.
pub open spec fn initial_size() -> TerminalSize {
    TerminalSize { rows: 24, cols: 80 }
}

/// The terminals of the editor, each with a handle and a size, under the
/// id it was created with.
pub struct TerminalManager<T> {
    terminals: HashMap<usize, (T, TerminalSize)>,
    next_id: usize,
}

impl<T> TerminalManager<T> {
    /// The terminals by id.
    pub closed spec fn terminals(&self) -> Map<usize, (T, TerminalSize)> {
        self.terminals@
    }

    /// The id the next terminal gets.
    pub closed spec fn next(&self) -> usize {
        self.next_id
    }

    /// Every id in use is below the next one.
    pub closed spec fn wf(&self) -> bool {
        forall|id: usize| #[trigger] self.terminals@.contains_key(id) ==> id < self.next_id
    }

    /// No terminals; the first gets id 0.
    pub fn new() -> (r: TerminalManager<T>)
        ensures
            r.wf(),
            r.terminals() == Map::<usize, (T, TerminalSize)>::empty(),
            r.next() == 0,
    {
        TerminalManager { terminals: HashMap::new(), next_id: 0 }
    }

    /// The id the next terminal gets.
    pub fn next_id(&self) -> (r: usize)
        ensures
            r == self.next(),
    {
        self.next_id
    }

    /// Adds a terminal with the initial size and gives its id: one never
    /// given before.
    pub fn create(&mut self, handle: T) -> (id: usize)
        requires
            old(self).wf(),
            old(self).next() < usize::MAX,
        ensures
            final(self).wf(),
            id == old(self).next(),
            !old(self).terminals().contains_key(id),
            final(self).terminals() == old(self).terminals().insert(id, (handle, initial_size())),
            final(self).next() == id + 1,
    {
        let id = self.next_id;
        self.next_id = self.next_id + 1;
        self.terminals.insert(id, (handle, TerminalSize { rows: 24, cols: 80 }));
        id
    }

    /// The handle of terminal `id`, or "Terminal not found".
    pub fn terminal(&self, id: usize) -> (r: Result<&T, String>)
        ensures
            self.terminals().contains_key(id) <==> r is Ok,
            r matches Ok(t) ==> *t == self.terminals()[id].0,
            r matches Err(e) ==> e@ == "Terminal not found"@,
    {
        match self.terminals.get(&id) {
            Some(entry) => Ok(&entry.0),
            None => Err("Terminal not found".to_owned()),
        }
    }

    /// The size of terminal `id`, or "Terminal not found".
    pub fn size(&self, id: usize) -> (r: Result<TerminalSize, String>)
        ensures
            self.terminals().contains_key(id) <==> r is Ok,
            r matches Ok(s) ==> s == self.terminals()[id].1,
            r matches Err(e) ==> e@ == "Terminal not found"@,
    {
        match self.terminals.get(&id) {
            Some(entry) => Ok(entry.1),
            None => Err("Terminal not found".to_owned()),
        }
    }

    /// Sets the size of terminal `id`, or gives "Terminal not found" and
    /// changes nothing.
    pub fn resize(&mut self, id: usize, cols: u16, rows: u16) -> (r: Result<(), String>)
        requires
            old(self).wf(),
        ensures
            final(self).wf(),
            final(self).next() == old(self).next(),
            old(self).terminals().contains_key(id) <==> r is Ok,
            r is Ok ==> final(self).terminals() == old(self).terminals().insert(
                id,
                (old(self).terminals()[id].0, TerminalSize { rows, cols }),
            ),
            r is Err ==> final(self).terminals() == old(self).terminals(),
            r matches Err(e) ==> e@ == "Terminal not found"@,
    {
        match self.terminals.remove(&id) {
            Some(entry) => {
                let handle = entry.0;
                self.terminals.insert(id, (handle, TerminalSize { rows, cols }));
                proof {
                    assert(self.terminals@ =~= old(self).terminals@.insert(
                        id,
                        (old(self).terminals@[id].0, TerminalSize { rows, cols }),
                    ));
                }
                Ok(())
            },
            None => {
                assert(self.terminals@ =~= old(self).terminals@);
                Err("Terminal not found".to_owned())
            },
        }
    }

    /// Takes terminal `id` out of the table, giving its handle back so that
    /// its process can be ended; an unknown id changes nothing.
    pub fn close(&mut self, id: usize) -> (r: Option<T>)
        requires
            old(self).wf(),
        ensures
            final(self).wf(),
            final(self).next() == old(self).next(),
            final(self).terminals() == old(self).terminals().remove(id),
            old(self).terminals().contains_key(id) <==> r is Some,
            r matches Some(t) ==> t == old(self).terminals()[id].0,
    {
        match self.terminals.remove(&id) {
            Some(entry) => Some(entry.0),
            None => None,
        }
    }
}

} // verus!
