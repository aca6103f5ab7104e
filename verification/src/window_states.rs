//! Remembered window positions and sizes, by window label, and the errors of
//! the plugin.
use vstd::prelude::*;
use std::path::PathBuf;

verus! {

/// The plugin's errors that carry a window label.
#[derive(Debug)]
pub enum Error {
    /// No window configuration carries the label.
    WindowConfigNotFound(String),
    /// More than one remembered state carries the label.
    WindowStatesToMany(String),
    /// No remembered state carries the label.
    WindowStatesNotFound(String),
}

impl Error {
    /// The error's text.
    pub open spec fn message_spec(&self) -> Seq<char> {
        match self {
            Error::WindowConfigNotFound(l) => "WindowConfig with label: "@ + l@ + " not found."@,
            Error::WindowStatesToMany(l) => "to many states for label: "@ + l@,
            Error::WindowStatesNotFound(l) => "state for label: "@ + l@ + " not found."@,
        }
    }

    /// The error's text.
    pub fn message(&self) -> (r: String)
        ensures
            r@ == self.message_spec(),
    {
        match self {
            Error::WindowConfigNotFound(l) => {
                let mut s = String::from_str("WindowConfig with label: ");
                s.append(l.as_str());
                s.append(" not found.");
                s
            },
            Error::WindowStatesToMany(l) => {
                let mut s = String::from_str("to many states for label: ");
                s.append(l.as_str());
                s
            },
            Error::WindowStatesNotFound(l) => {
                let mut s = String::from_str("state for label: ");
                s.append(l.as_str());
                s.append(" not found.");
                s
            },
        }
    }
}

/// Where a window was and how large it was.
#[derive(Debug)]
pub struct WindowState {
    pub label: String,
    pub pos: Option<(i32, i32)>,
    pub size: Option<(u32, u32)>,
}

/// The remembered states.
#[derive(Debug)]
pub struct WindowStatesData(pub Vec<WindowState>);

/// How many of the states carry `label`.
pub open spec fn label_count(s: Seq<WindowState>, label: Seq<char>) -> nat
    decreases s.len(),
{
    if s.len() == 0 {
        0
    } else {
        label_count(s.drop_last(), label) + if s.last().label@ == label {
            1nat
        } else {
            0nat
        }
    }
}

/// `w` with the given position and size put in, where they are present, if
/// it carries `label`.
pub open spec fn updated_state(
    w: WindowState,
    label: Seq<char>,
    pos: Option<(i32, i32)>,
    size: Option<(u32, u32)>,
) -> WindowState {
    if w.label@ == label {
        WindowState {
            label: w.label,
            pos: if pos is Some {
                pos
            } else {
                w.pos
            },
            size: if size is Some {
                size
            } else {
                w.size
            },
        }
    } else {
        w
    }
}

/// A state that carries `label` makes the count of `label` positive.
proof fn lemma_label_count_positive(s: Seq<WindowState>, label: Seq<char>, i: int)
    requires
        0 <= i < s.len(),
        s[i].label@ == label,
    ensures
        label_count(s, label) >= 1,
    decreases s.len(),
{
    if i < s.len() - 1 {
        lemma_label_count_positive(s.drop_last(), label, i);
    }
}

/// Remembering a label that no state carries yet makes the new state the only
/// one that carries it, so that `get` then finds it.
pub proof fn law_check_registers_label(s: Seq<WindowState>, w: WindowState, label: Seq<char>)
    requires
        label_count(s, label) == 0,
        w.label@ == label,
    ensures
        label_count(s.push(w), label) == 1,
        forall|i: int| 0 <= i < s.push(w).len() && (#[trigger] s.push(w)[i]).label@ == label ==> i == s.len(),
{
    assert(s.push(w).drop_last() =~= s);
    assert forall|i: int| 0 <= i < s.push(w).len() && (#[trigger] s.push(w)[i]).label@ == label implies i == s.len() by {
        if i < s.len() {
            assert(s[i] == s.push(w)[i]);
            lemma_label_count_positive(s, label, i);
        }
    }
}

/// Setting a position or a size never changes which labels the states carry.
pub proof fn law_set_keeps_labels(
    s: Seq<WindowState>,
    label: Seq<char>,
    pos: Option<(i32, i32)>,
    size: Option<(u32, u32)>,
    other: Seq<char>,
)
    ensures
        label_count(s.map_values(|w: WindowState| updated_state(w, label, pos, size)), other)
            == label_count(s, other),
    decreases s.len(),
{
    let u = s.map_values(|w: WindowState| updated_state(w, label, pos, size));
    if s.len() > 0 {
        law_set_keeps_labels(s.drop_last(), label, pos, size, other);
        assert(u.drop_last() =~= s.drop_last().map_values(
            |w: WindowState| updated_state(w, label, pos, size),
        ));
    }
}

/// Setting a position or size leaves every state of another label as it was.
pub proof fn law_set_leaves_other_windows(
    s: Seq<WindowState>,
    label: Seq<char>,
    pos: Option<(i32, i32)>,
    size: Option<(u32, u32)>,
    i: int,
)
    requires
        0 <= i < s.len(),
        s[i].label@ != label,
    ensures
        s.map_values(|w: WindowState| updated_state(w, label, pos, size))[i] == s[i],
{
}

/// After a set, the state that carries the label keeps its label and has the
/// given position and size, where they were given, and its old ones otherwise.
pub proof fn law_set_then_get(
    s: Seq<WindowState>,
    label: Seq<char>,
    pos: Option<(i32, i32)>,
    size: Option<(u32, u32)>,
    i: int,
)
    requires
        0 <= i < s.len(),
        s[i].label@ == label,
    ensures
        ({
            let u = s.map_values(|w: WindowState| updated_state(w, label, pos, size))[i];
            &&& u.label == s[i].label
            &&& u.pos == if pos is Some { pos } else { s[i].pos }
            &&& u.size == if size is Some { size } else { s[i].size }
        }),
{
}

/// The remembered window states and the file they are kept in.
#[derive(Debug)]
pub struct WindowStatesManager {
    store_path: PathBuf,
    count: usize,
    states: WindowStatesData,
}

impl WindowStatesManager {
    /// The states, in order.
    pub closed spec fn states_view(&self) -> Seq<WindowState> {
        self.states.0@
    }

    /// The count that the last load reported.
    pub closed spec fn count_view(&self) -> usize {
        self.count
    }

    /// The file the states are kept in.
    pub closed spec fn store_path_view(&self) -> PathBuf {
        self.store_path
    }

    /// No states yet, kept in `data_dir`.
    pub fn new(data_dir: PathBuf) -> (r: Self)
        ensures
            r.states_view() == Seq::<WindowState>::empty(),
            r.count_view() == 0,
            r.store_path_view() == data_dir,
    {
        Self { store_path: data_dir, count: 0, states: WindowStatesData(Vec::new()) }
    }

    /// The file the states are kept in.
    pub fn store_path(&self) -> (r: &PathBuf)
        ensures
            *r == self.store_path_view(),
    {
        &self.store_path
    }

    /// The states, in order.
    pub fn states(&self) -> (r: &WindowStatesData)
        ensures
            r.0@ == self.states_view(),
    {
        &self.states
    }

    /// Puts in the states decoded from the file and the number of bytes the
    /// decoder read.
    pub fn load(&mut self, decoded: WindowStatesData, count: usize)
        ensures
            final(self).states_view() == decoded.0@,
            final(self).count_view() == count,
            final(self).store_path_view() == old(self).store_path_view(),
    {
        self.count = count;
        self.states = decoded;
    }

    /// How many states carry `label`, and the first of them.
    fn find(&self, label: &str) -> (r: (usize, Option<usize>))
        ensures
            r.0 == label_count(self.states_view(), label@),
            r.1 matches Some(i) ==> i < self.states_view().len() && self.states_view()[i as int].label@
                == label@,
            r.1 is Some == (r.0 > 0),
    {
        let key = String::from_str(label);
        let mut n: usize = 0;
        let mut first: Option<usize> = None;
        let mut i: usize = 0;
        while i < self.states.0.len()
            invariant
                i <= self.states.0.len(),
                key@ == label@,
                n <= i,
                n == label_count(self.states_view().take(i as int), label@),
                first matches Some(j) ==> j < i && self.states_view()[j as int].label@ == label@,
                first is Some == (n > 0),
            decreases self.states.0.len() - i,
        {
            proof {
                let t = self.states_view().take(i + 1);
                assert(t.drop_last() =~= self.states_view().take(i as int));
                assert(t.last() == self.states_view()[i as int]);
            }
            if self.states.0[i].label == key {
                if first.is_none() {
                    first = Some(i);
                }
                n += 1;
            }
            i += 1;
        }
        assert(self.states_view().take(self.states.0.len() as int) =~= self.states_view());
        (n, first)
    }

    /// The one state that carries `label`; an error where none or several do.
    pub fn get(&self, label: &str) -> (r: Result<&WindowState, Error>)
        ensures
            r is Ok == (label_count(self.states_view(), label@) == 1),
            r matches Ok(w) ==> w.label@ == label@ && exists|i: int|
                0 <= i < self.states_view().len() && self.states_view()[i] == *w,
            r matches Err(e) ==> if label_count(self.states_view(), label@) == 0 {
                e matches Error::WindowStatesNotFound(m) && m@ == label@
            } else {
                e matches Error::WindowStatesToMany(m) && m@ == label@
            },
    {
        let (n, first) = self.find(label);
        if n == 0 {
            return Err(Error::WindowStatesNotFound(String::from_str(label)));
        }
        if n > 1 {
            return Err(Error::WindowStatesToMany(String::from_str(label)));
        }
        match first {
            Some(i) => Ok(&self.states.0[i]),
            None => Err(Error::WindowStatesNotFound(String::from_str(label))),
        }
    }

    /// Remembers `label` with the position and size of `new`, where no state
    /// carries `label` yet; otherwise changes nothing.
    pub fn check(&mut self, label: &str, new: WindowState) -> (r: Result<(), Error>)
        ensures
            r is Ok,
            final(self).count_view() == old(self).count_view(),
            final(self).store_path_view() == old(self).store_path_view(),
            label_count(old(self).states_view(), label@) == 0 ==> {
                &&& final(self).states_view().len() == old(self).states_view().len() + 1
                &&& final(self).states_view().drop_last() == old(self).states_view()
                &&& final(self).states_view().last().label@ == label@
                &&& final(self).states_view().last().pos == new.pos
                &&& final(self).states_view().last().size == new.size
            },
            label_count(old(self).states_view(), label@) > 0 ==> final(self).states_view()
                == old(self).states_view(),
    {
        let (n, _) = self.find(label);
        if n == 0 {
            self.states.0.push(
                WindowState { label: String::from_str(label), pos: new.pos, size: new.size },
            );
        }
        Ok(())
    }

    /// Puts the position and the size of `new`, where they are present, into
    /// the state that carries `label`; an error where several states do.
    pub fn set(&mut self, label: &str, new: WindowState) -> (r: Result<(), Error>)
        ensures
            r is Ok == (label_count(old(self).states_view(), label@) <= 1),
            r matches Err(e) ==> e matches Error::WindowStatesToMany(m) && m@ == label@,
            r is Err ==> final(self).states_view() == old(self).states_view(),
            r is Ok ==> final(self).states_view() == old(self).states_view().map_values(
                |w: WindowState| updated_state(w, label@, new.pos, new.size),
            ),
            final(self).states_view().len() == old(self).states_view().len(),
            forall|i: int|
                0 <= i < old(self).states_view().len() && old(self).states_view()[i].label@ != label@
                    ==> #[trigger] final(self).states_view()[i] == old(self).states_view()[i],
            r is Ok ==> forall|i: int|
                0 <= i < old(self).states_view().len() && old(self).states_view()[i].label@ == label@
                    ==> {
                    &&& (#[trigger] final(self).states_view()[i]).label == old(self).states_view()[i].label
                    &&& final(self).states_view()[i].pos == if new.pos is Some {
                        new.pos
                    } else {
                        old(self).states_view()[i].pos
                    }
                    &&& final(self).states_view()[i].size == if new.size is Some {
                        new.size
                    } else {
                        old(self).states_view()[i].size
                    }
                },
            final(self).count_view() == old(self).count_view(),
            final(self).store_path_view() == old(self).store_path_view(),
    {
        let (n, _) = self.find(label);
        if n > 1 {
            return Err(Error::WindowStatesToMany(String::from_str(label)));
        }
        let key = String::from_str(label);
        let ghost start = self.states_view();
        let mut i: usize = 0;
        while i < self.states.0.len()
            invariant
                i <= self.states.0.len() == start.len(),
                key@ == label@,
                forall|j: int|
                    0 <= j < i ==> #[trigger] self.states_view()[j] == updated_state(
                        start[j],
                        label@,
                        new.pos,
                        new.size,
                    ),
                forall|j: int| i <= j < start.len() ==> #[trigger] self.states_view()[j] == start[j],
                self.count_view() == old(self).count_view(),
                self.store_path_view() == old(self).store_path_view(),
            decreases self.states.0.len() - i,
        {
            let ghost prev = self.states_view();
            if self.states.0[i].label == key {
                let label_i = self.states.0[i].label.clone();
                let pos = match new.pos {
                    Some(p) => Some(p),
                    None => self.states.0[i].pos,
                };
                let size = match new.size {
                    Some(s) => Some(s),
                    None => self.states.0[i].size,
                };
                self.states.0.set(i, WindowState { label: label_i, pos, size });
                assert(self.states_view() == prev.update(i as int, updated_state(start[i as int], label@, new.pos, new.size)));
            } else {
                assert(updated_state(start[i as int], label@, new.pos, new.size) == start[i as int]);
            }
            assert forall|j: int| 0 <= j < i + 1 implies #[trigger] self.states_view()[j] == updated_state(
                start[j], label@, new.pos, new.size) by {
                if j < i {
                    assert(prev[j] == updated_state(start[j], label@, new.pos, new.size));
                }
            }
            assert forall|j: int| i + 1 <= j < start.len() implies #[trigger] self.states_view()[j] == start[j] by {
                assert(prev[j] == start[j]);
            }
            i += 1;
        }
        assert(self.states_view() =~= start.map_values(
            |w: WindowState| updated_state(w, label@, new.pos, new.size),
        ));
        Ok(())
    }
}

} // verus!
