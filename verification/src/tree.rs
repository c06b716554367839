//! A retained node tree with integer handles, edited by a reactive caller and
//! painted once a frame by the host.
//!
//! Handles are `index + 1`, so 0 is always "no node". Freed slots are reused,
//! most recently freed first. The arena keeps an acyclic parent/child
//! structure: every edit that would close a loop is refused.

use vstd::prelude::*;
use std::collections::VecDeque;
use crate::text::{chars_of, str_eq, string_from_chars};
use crate::props::{prop_str, text_of};

verus! {

/// What a node renders as. Unknown tags are kept rather than rejected: they
/// paint as a plain vertical box.
#[derive(Clone, Copy, Debug, PartialEq, Eq, Structural)]
pub enum Tag {
    Window,
    Box,
    Page,
    Card,
    Frame,
    Scroll,
    Label,
    Link,
    Title,
    Title2,
    DimLabel,
    Button,
    CheckButton,
    Entry,
    Separator,
    Spacer,
    Progress,
    Spinner,
    Image,
    Avatar,
    Reaction,
    Status,
    Unknown,
}

/// The tag a hiccup tag name stands for (`hbox`/`vbox` are both a box).
pub open spec fn tag_for_name(s: Seq<char>) -> Tag {
    if s == "window"@ {
        Tag::Window
    } else if s == "box"@ || s == "hbox"@ || s == "vbox"@ {
        Tag::Box
    } else if s == "page"@ {
        Tag::Page
    } else if s == "card"@ {
        Tag::Card
    } else if s == "frame"@ {
        Tag::Frame
    } else if s == "scroll"@ {
        Tag::Scroll
    } else if s == "label"@ {
        Tag::Label
    } else if s == "link"@ {
        Tag::Link
    } else if s == "title"@ {
        Tag::Title
    } else if s == "title-2"@ {
        Tag::Title2
    } else if s == "dim-label"@ {
        Tag::DimLabel
    } else if s == "button"@ {
        Tag::Button
    } else if s == "checkbutton"@ || s == "checkbox"@ {
        Tag::CheckButton
    } else if s == "entry"@ {
        Tag::Entry
    } else if s == "separator"@ {
        Tag::Separator
    } else if s == "spacer"@ || s == "gap"@ {
        Tag::Spacer
    } else if s == "progress"@ {
        Tag::Progress
    } else if s == "spinner"@ {
        Tag::Spinner
    } else if s == "image"@ {
        Tag::Image
    } else if s == "avatar"@ {
        Tag::Avatar
    } else if s == "reaction"@ {
        Tag::Reaction
    } else if s == "status"@ {
        Tag::Status
    } else {
        Tag::Unknown
    }
}

/// The canonical name of a tag; the unknown tag answers the empty string.
pub open spec fn tag_name_of(t: Tag) -> Seq<char> {
    match t {
        Tag::Window => "window"@,
        Tag::Box => "box"@,
        Tag::Page => "page"@,
        Tag::Card => "card"@,
        Tag::Frame => "frame"@,
        Tag::Scroll => "scroll"@,
        Tag::Label => "label"@,
        Tag::Link => "link"@,
        Tag::Title => "title"@,
        Tag::Title2 => "title-2"@,
        Tag::DimLabel => "dim-label"@,
        Tag::Button => "button"@,
        Tag::CheckButton => "checkbutton"@,
        Tag::Entry => "entry"@,
        Tag::Separator => "separator"@,
        Tag::Spacer => "spacer"@,
        Tag::Progress => "progress"@,
        Tag::Spinner => "spinner"@,
        Tag::Image => "image"@,
        Tag::Avatar => "avatar"@,
        Tag::Reaction => "reaction"@,
        Tag::Status => "status"@,
        Tag::Unknown => ""@,
    }
}

impl Tag {
    /// Parse a hiccup tag name. `:hbox`/`:vbox` are the same box — the tag only
    /// implies an orientation, which the caller sets as a prop.
    pub fn parse(name: &str) -> (t: Tag)
        ensures
            t == tag_for_name(name@),
    {
        if str_eq(name, "window") {
            Tag::Window
        } else if str_eq(name, "box") || str_eq(name, "hbox") || str_eq(name, "vbox") {
            Tag::Box
        } else if str_eq(name, "page") {
            Tag::Page
        } else if str_eq(name, "card") {
            Tag::Card
        } else if str_eq(name, "frame") {
            Tag::Frame
        } else if str_eq(name, "scroll") {
            Tag::Scroll
        } else if str_eq(name, "label") {
            Tag::Label
        } else if str_eq(name, "link") {
            Tag::Link
        } else if str_eq(name, "title") {
            Tag::Title
        } else if str_eq(name, "title-2") {
            Tag::Title2
        } else if str_eq(name, "dim-label") {
            Tag::DimLabel
        } else if str_eq(name, "button") {
            Tag::Button
        } else if str_eq(name, "checkbutton") || str_eq(name, "checkbox") {
            Tag::CheckButton
        } else if str_eq(name, "entry") {
            Tag::Entry
        } else if str_eq(name, "separator") {
            Tag::Separator
        } else if str_eq(name, "spacer") || str_eq(name, "gap") {
            Tag::Spacer
        } else if str_eq(name, "progress") {
            Tag::Progress
        } else if str_eq(name, "spinner") {
            Tag::Spinner
        } else if str_eq(name, "image") {
            Tag::Image
        } else if str_eq(name, "avatar") {
            Tag::Avatar
        } else if str_eq(name, "reaction") {
            Tag::Reaction
        } else if str_eq(name, "status") {
            Tag::Status
        } else {
            Tag::Unknown
        }
    }

    /// The canonical name of a parsed tag: `:hbox` and `:vbox` both answer
    /// `box`, since the orientation lives in a prop rather than in the tag.
    pub fn name(&self) -> (s: &'static str)
        ensures
            s@ == tag_name_of(*self),
    {
        match self {
            Tag::Window => "window",
            Tag::Box => "box",
            Tag::Page => "page",
            Tag::Card => "card",
            Tag::Frame => "frame",
            Tag::Scroll => "scroll",
            Tag::Label => "label",
            Tag::Link => "link",
            Tag::Title => "title",
            Tag::Title2 => "title-2",
            Tag::DimLabel => "dim-label",
            Tag::Button => "button",
            Tag::CheckButton => "checkbutton",
            Tag::Entry => "entry",
            Tag::Separator => "separator",
            Tag::Spacer => "spacer",
            Tag::Progress => "progress",
            Tag::Spinner => "spinner",
            Tag::Image => "image",
            Tag::Avatar => "avatar",
            Tag::Reaction => "reaction",
            Tag::Status => "status",
            Tag::Unknown => "",
        }
    }
}

/// The documented aliases parse to their tags: `checkbox` is a check
/// button, `gap` a spacer, and `hbox`, `vbox` and `box` all a box.
pub proof fn lemma_tag_aliases()
    ensures
        tag_for_name("checkbox"@) == Tag::CheckButton,
        tag_for_name("checkbutton"@) == Tag::CheckButton,
        tag_for_name("gap"@) == Tag::Spacer,
        tag_for_name("spacer"@) == Tag::Spacer,
        tag_for_name("hbox"@) == Tag::Box,
        tag_for_name("vbox"@) == Tag::Box,
        tag_for_name("box"@) == Tag::Box,
{
    broadcast use vstd::string::group_string_axioms;
    reveal_strlit("window");
    reveal_strlit("box");
    reveal_strlit("hbox");
    reveal_strlit("vbox");
    reveal_strlit("page");
    reveal_strlit("card");
    reveal_strlit("frame");
    reveal_strlit("scroll");
    reveal_strlit("label");
    reveal_strlit("link");
    reveal_strlit("title");
    reveal_strlit("title-2");
    reveal_strlit("dim-label");
    reveal_strlit("button");
    reveal_strlit("checkbutton");
    reveal_strlit("checkbox");
    reveal_strlit("entry");
    reveal_strlit("separator");
    reveal_strlit("spacer");
    reveal_strlit("gap");
    reveal_strlit("progress");
    reveal_strlit("spinner");
    reveal_strlit("image");
    reveal_strlit("avatar");
    reveal_strlit("reaction");
    reveal_strlit("status");
    reveal_strlit("");
    assert(""@.len() == 0);
    assert("window"@.len() == 6 && "window"@[0] == 'w' && "window"@[1] == 'i');
    assert("box"@.len() == 3 && "box"@[0] == 'b' && "box"@[1] == 'o');
    assert("hbox"@.len() == 4 && "hbox"@[0] == 'h' && "hbox"@[1] == 'b');
    assert("vbox"@.len() == 4 && "vbox"@[0] == 'v' && "vbox"@[1] == 'b');
    assert("page"@.len() == 4 && "page"@[0] == 'p' && "page"@[1] == 'a');
    assert("card"@.len() == 4 && "card"@[0] == 'c' && "card"@[1] == 'a');
    assert("frame"@.len() == 5 && "frame"@[0] == 'f' && "frame"@[1] == 'r');
    assert("scroll"@.len() == 6 && "scroll"@[0] == 's' && "scroll"@[1] == 'c');
    assert("label"@.len() == 5 && "label"@[0] == 'l' && "label"@[1] == 'a');
    assert("link"@.len() == 4 && "link"@[0] == 'l' && "link"@[1] == 'i');
    assert("title"@.len() == 5 && "title"@[0] == 't' && "title"@[1] == 'i');
    assert("title-2"@.len() == 7 && "title-2"@[0] == 't' && "title-2"@[1] == 'i');
    assert("dim-label"@.len() == 9 && "dim-label"@[0] == 'd' && "dim-label"@[1] == 'i');
    assert("button"@.len() == 6 && "button"@[0] == 'b' && "button"@[1] == 'u');
    assert("checkbutton"@.len() == 11 && "checkbutton"@[0] == 'c' && "checkbutton"@[1] == 'h');
    assert("checkbox"@.len() == 8 && "checkbox"@[0] == 'c' && "checkbox"@[1] == 'h');
    assert("entry"@.len() == 5 && "entry"@[0] == 'e' && "entry"@[1] == 'n');
    assert("separator"@.len() == 9 && "separator"@[0] == 's' && "separator"@[1] == 'e');
    assert("spacer"@.len() == 6 && "spacer"@[0] == 's' && "spacer"@[1] == 'p');
    assert("gap"@.len() == 3 && "gap"@[0] == 'g' && "gap"@[1] == 'a');
    assert("progress"@.len() == 8 && "progress"@[0] == 'p' && "progress"@[1] == 'r');
    assert("spinner"@.len() == 7 && "spinner"@[0] == 's' && "spinner"@[1] == 'p');
    assert("image"@.len() == 5 && "image"@[0] == 'i' && "image"@[1] == 'm');
    assert("avatar"@.len() == 6 && "avatar"@[0] == 'a' && "avatar"@[1] == 'v');
    assert("reaction"@.len() == 8 && "reaction"@[0] == 'r' && "reaction"@[1] == 'e');
    assert("status"@.len() == 6 && "status"@[0] == 's' && "status"@[1] == 't');
}

/// Every tag parses back from its canonical name; the unknown tag's name
/// is empty, and the empty name parses as unknown.
pub proof fn lemma_tag_name_round_trip(t: Tag)
    ensures
        tag_for_name(tag_name_of(t)) == t,
{
    broadcast use vstd::string::group_string_axioms;
    reveal_strlit("window");
    reveal_strlit("box");
    reveal_strlit("hbox");
    reveal_strlit("vbox");
    reveal_strlit("page");
    reveal_strlit("card");
    reveal_strlit("frame");
    reveal_strlit("scroll");
    reveal_strlit("label");
    reveal_strlit("link");
    reveal_strlit("title");
    reveal_strlit("title-2");
    reveal_strlit("dim-label");
    reveal_strlit("button");
    reveal_strlit("checkbutton");
    reveal_strlit("checkbox");
    reveal_strlit("entry");
    reveal_strlit("separator");
    reveal_strlit("spacer");
    reveal_strlit("gap");
    reveal_strlit("progress");
    reveal_strlit("spinner");
    reveal_strlit("image");
    reveal_strlit("avatar");
    reveal_strlit("reaction");
    reveal_strlit("status");
    reveal_strlit("");
    assert(""@.len() == 0);
    assert("window"@.len() == 6 && "window"@[0] == 'w' && "window"@[1] == 'i');
    assert("box"@.len() == 3 && "box"@[0] == 'b' && "box"@[1] == 'o');
    assert("hbox"@.len() == 4 && "hbox"@[0] == 'h' && "hbox"@[1] == 'b');
    assert("vbox"@.len() == 4 && "vbox"@[0] == 'v' && "vbox"@[1] == 'b');
    assert("page"@.len() == 4 && "page"@[0] == 'p' && "page"@[1] == 'a');
    assert("card"@.len() == 4 && "card"@[0] == 'c' && "card"@[1] == 'a');
    assert("frame"@.len() == 5 && "frame"@[0] == 'f' && "frame"@[1] == 'r');
    assert("scroll"@.len() == 6 && "scroll"@[0] == 's' && "scroll"@[1] == 'c');
    assert("label"@.len() == 5 && "label"@[0] == 'l' && "label"@[1] == 'a');
    assert("link"@.len() == 4 && "link"@[0] == 'l' && "link"@[1] == 'i');
    assert("title"@.len() == 5 && "title"@[0] == 't' && "title"@[1] == 'i');
    assert("title-2"@.len() == 7 && "title-2"@[0] == 't' && "title-2"@[1] == 'i');
    assert("dim-label"@.len() == 9 && "dim-label"@[0] == 'd' && "dim-label"@[1] == 'i');
    assert("button"@.len() == 6 && "button"@[0] == 'b' && "button"@[1] == 'u');
    assert("checkbutton"@.len() == 11 && "checkbutton"@[0] == 'c' && "checkbutton"@[1] == 'h');
    assert("checkbox"@.len() == 8 && "checkbox"@[0] == 'c' && "checkbox"@[1] == 'h');
    assert("entry"@.len() == 5 && "entry"@[0] == 'e' && "entry"@[1] == 'n');
    assert("separator"@.len() == 9 && "separator"@[0] == 's' && "separator"@[1] == 'e');
    assert("spacer"@.len() == 6 && "spacer"@[0] == 's' && "spacer"@[1] == 'p');
    assert("gap"@.len() == 3 && "gap"@[0] == 'g' && "gap"@[1] == 'a');
    assert("progress"@.len() == 8 && "progress"@[0] == 'p' && "progress"@[1] == 'r');
    assert("spinner"@.len() == 7 && "spinner"@[0] == 's' && "spinner"@[1] == 'p');
    assert("image"@.len() == 5 && "image"@[0] == 'i' && "image"@[1] == 'm');
    assert("avatar"@.len() == 6 && "avatar"@[0] == 'a' && "avatar"@[1] == 'v');
    assert("reaction"@.len() == 8 && "reaction"@[0] == 'r' && "reaction"@[1] == 'e');
    assert("status"@.len() == 6 && "status"@[0] == 's' && "status"@[1] == 't');
    match t {
        Tag::Window => {},
        Tag::Box => {},
        Tag::Page => {},
        Tag::Card => {},
        Tag::Frame => {},
        Tag::Scroll => {},
        Tag::Label => {},
        Tag::Link => {},
        Tag::Title => {},
        Tag::Title2 => {},
        Tag::DimLabel => {},
        Tag::Button => {},
        Tag::CheckButton => {},
        Tag::Entry => {},
        Tag::Separator => {},
        Tag::Spacer => {},
        Tag::Progress => {},
        Tag::Spinner => {},
        Tag::Image => {},
        Tag::Avatar => {},
        Tag::Reaction => {},
        Tag::Status => {},
        Tag::Unknown => {},
    }
}

} // verus!

verus! {

/// A prop value: keywords and colours arrive as strings, flags as bools, and
/// numbers as the IEEE-754 bit pattern of the `f64` the caller sent.
#[derive(Clone, Debug, PartialEq)]
pub enum Value {
    Str(String),
    Num(u64),
    Bool(bool),
}

/// One named prop on a node.
pub struct Prop {
    pub key: String,
    pub value: Value,
}

/// One interaction, waiting to be drained by the caller. `num` carries the
/// IEEE-754 bits of the handler's numeric payload.
pub struct Event {
    pub node: u32,
    pub name: String,
    pub text: String,
    pub num: u64,
}

/// The value of the last prop named `key` in `props`, if any.
pub open spec fn prop_lookup(props: Seq<Prop>, key: Seq<char>) -> Option<Value>
    decreases props.len(),
{
    if props.len() == 0 {
        None
    } else if props.last().key@ == key {
        Some(props.last().value)
    } else {
        prop_lookup(props.drop_last(), key)
    }
}

/// The node arena.
///
/// Handles are `index + 1`, so 0 is always "no node". Freed slots are reused,
/// so a list that churns rows does not grow the arena.
pub struct Tree {
    live: Vec<bool>,
    tags: Vec<Tag>,
    parents: Vec<u32>,
    kids: Vec<Vec<u32>>,
    props: Vec<Vec<Prop>>,
    free: Vec<u32>,
    root: u32,
    pending: VecDeque<Event>,
    current: Option<Event>,
    /// A height for every slot: a parent is always strictly above its children.
    rank: Ghost<Seq<nat>>,
    /// Every live node's height is below this.
    bound: Ghost<nat>,
}

impl Tree {
    /// Number of slots the arena has ever handed out.
    pub closed spec fn slots(&self) -> nat {
        self.live@.len()
    }

    /// `id` names a node that exists.
    pub closed spec fn valid(&self, id: u32) -> bool {
        1 <= id <= self.live@.len() && self.live@[id - 1]
    }

    pub closed spec fn tag_of(&self, id: u32) -> Tag {
        self.tags@[id - 1]
    }

    /// The node's parent; 0 when it has none.
    pub closed spec fn parent_of(&self, id: u32) -> u32 {
        self.parents@[id - 1]
    }

    pub closed spec fn children_of(&self, id: u32) -> Seq<u32> {
        self.kids@[id - 1]@
    }

    pub closed spec fn props_of(&self, id: u32) -> Seq<Prop> {
        self.props@[id - 1]@
    }

    pub closed spec fn root_id(&self) -> u32 {
        self.root
    }

    /// Freed slots, the next to be reused last.
    pub closed spec fn free_list(&self) -> Seq<u32> {
        self.free@
    }

    /// Events waiting to be polled, oldest first.
    pub closed spec fn pending_events(&self) -> Seq<Event> {
        self.pending@
    }

    pub closed spec fn current_event(&self) -> Option<Event> {
        self.current
    }

    /// A new node can be made without the handle overflowing.
    pub open spec fn can_allocate(&self) -> bool {
        self.free_list().len() > 0 || self.slots() + 1 < u32::MAX
    }

    /// Height of a slot: a parent is always strictly above its children.
    pub closed spec fn rank_of(&self, id: u32) -> nat {
        self.rank@[id - 1]
    }

    /// Every live node's height is below this.
    pub closed spec fn height_bound(&self) -> nat {
        self.bound@
    }

    spec fn node_ok(&self, id: u32) -> bool {
        let p = self.parent_of(id);
        let cs = self.children_of(id);
        &&& forall|k: int| 0 <= k < cs.len() ==> #[trigger] self.valid(cs[k]) && self.parent_of(cs[k]) == id
        &&& cs.no_duplicates()
        &&& p != 0 ==> self.valid(p) && self.children_of(p).contains(id)
        &&& self.rank_of(id) < self.bound@
        &&& p != 0 ==> self.rank_of(p) > self.rank_of(id)
    }

    spec fn dead_slot(&self, id: u32) -> bool {
        1 <= id <= self.live@.len() && !self.live@[id - 1]
    }

    /// The arena is well formed: parent and child links agree, the links are
    /// acyclic, and the free list holds each dead slot exactly once.
    pub closed spec fn wf(&self) -> bool {
        let n = self.live@.len();
        &&& self.tags@.len() == n
        &&& self.parents@.len() == n
        &&& self.kids@.len() == n
        &&& self.props@.len() == n
        &&& self.rank@.len() == n
        &&& n < u32::MAX
        &&& self.bound@ > 0
        &&& forall|id: u32| #[trigger] self.valid(id) ==> self.node_ok(id)
        &&& forall|f: int| 0 <= f < self.free@.len() ==> #[trigger] self.dead_slot(self.free@[f])
        &&& self.free@.no_duplicates()
        &&& forall|id: u32| #[trigger] self.dead_slot(id) ==> self.free@.contains(id)
    }

    /// Every node but `id` is exactly as it was in `old`.
    pub open spec fn same_except(&self, old: &Self, id: u32) -> bool {
        &&& self.slots() >= old.slots()
        &&& forall|x: u32| x != id ==> #[trigger] self.valid(x) == old.valid(x)
        &&& forall|x: u32|
            #![trigger old.valid(x)]
            #![trigger self.tag_of(x)]
            #![trigger self.parent_of(x)]
            #![trigger self.children_of(x)]
            #![trigger self.props_of(x)]
            x != id && old.valid(x) ==> self.same_node(old, x)
    }

    /// `x` has the same tag, parent, children and props in both trees.
    pub open spec fn same_node(&self, old: &Self, x: u32) -> bool {
        &&& self.tag_of(x) == old.tag_of(x)
        &&& self.parent_of(x) == old.parent_of(x)
        &&& self.children_of(x) == old.children_of(x)
        &&& self.props_of(x) == old.props_of(x)
    }

    fn is_live(&self, id: u32) -> (b: bool)
        requires
            self.live@.len() < u32::MAX,
        ensures
            b == self.valid(id),
    {
        id != 0 && (id as usize) <= self.live.len() && self.live[(id - 1) as usize]
    }

    pub fn root(&self) -> (id: u32)
        ensures
            id == self.root_id(),
    {
        self.root
    }

    pub fn node_exists(&self, id: u32) -> (b: bool)
        requires
            self.wf(),
        ensures
            b == self.valid(id),
    {
        self.is_live(id)
    }

    /// The node's tag, when it exists.
    pub fn tag(&self, id: u32) -> (t: Option<Tag>)
        requires
            self.wf(),
        ensures
            t == (if self.valid(id) { Some(self.tag_of(id)) } else { None }),
    {
        if self.is_live(id) {
            Some(self.tags[(id - 1) as usize])
        } else {
            None
        }
    }

    /// The canonical tag name, or the empty string for a node that is not there.
    pub fn tag_name(&self, id: u32) -> (s: &'static str)
        requires
            self.wf(),
        ensures
            s@ == (if self.valid(id) { tag_name_of(self.tag_of(id)) } else { ""@ }),
    {
        if self.is_live(id) {
            self.tags[(id - 1) as usize].name()
        } else {
            ""
        }
    }

    pub fn child_count(&self, id: u32) -> (n: usize)
        requires
            self.wf(),
        ensures
            n == (if self.valid(id) { self.children_of(id).len() } else { 0 }),
    {
        if self.is_live(id) {
            self.kids[(id - 1) as usize].len()
        } else {
            0
        }
    }

    pub fn child_at(&self, id: u32, index: usize) -> (c: u32)
        requires
            self.wf(),
        ensures
            c == (if self.valid(id) && index < self.children_of(id).len() {
                self.children_of(id)[index as int]
            } else {
                0
            }),
    {
        if self.is_live(id) && index < self.kids[(id - 1) as usize].len() {
            self.kids[(id - 1) as usize][index]
        } else {
            0
        }
    }

    /// The node's children in order (empty for a node that is not there).
    pub fn children(&self, id: u32) -> (cs: Vec<u32>)
        requires
            self.wf(),
        ensures
            cs@ == (if self.valid(id) { self.children_of(id) } else { Seq::empty() }),
    {
        let mut out: Vec<u32> = Vec::new();
        if self.is_live(id) {
            let src = &self.kids[(id - 1) as usize];
            let mut i: usize = 0;
            while i < src.len()
                invariant
                    i <= src.len(),
                    out@ == src@.take(i as int),
                decreases src.len() - i,
            {
                proof {
                    assert(src@.take(i + 1) =~= src@.take(i as int).push(src@[i as int]));
                }
                out.push(src[i]);
                i = i + 1;
            }
            proof {
                assert(src@.take(i as int) =~= src@);
            }
        }
        out
    }
}

} // verus!

verus! {

impl Tree {
    /// A fresh arena: a single `window` node, the root.
    pub fn new() -> (t: Tree)
        ensures
            t.wf(),
            t.slots() == 1,
            t.root_id() == 1,
            t.valid(1),
            t.tag_of(1) == Tag::Window,
            t.parent_of(1) == 0,
            t.children_of(1) == Seq::<u32>::empty(),
            t.props_of(1).len() == 0,
            t.free_list() == Seq::<u32>::empty(),
            t.pending_events() == Seq::<Event>::empty(),
            t.current_event() is None,
    {
        let ghost ranks: Seq<nat> = seq![0nat];
        let t = Tree {
            live: vec![true],
            tags: vec![Tag::Window],
            parents: vec![0u32],
            kids: vec![Vec::new()],
            props: vec![Vec::new()],
            free: Vec::new(),
            root: 1,
            pending: VecDeque::new(),
            current: None,
            rank: Ghost(ranks),
            bound: Ghost(1nat),
        };
        proof {
            assert forall|id: u32| #[trigger] t.valid(id) implies t.node_ok(id) by {
                assert(id == 1);
                assert(t.children_of(id) =~= Seq::<u32>::empty());
            }
            assert(t.children_of(1) =~= Seq::<u32>::empty());
        }
        t
    }

    /// Make a detached node for `tag`, reusing the most recently freed slot.
    pub fn new_node(&mut self, tag: &str) -> (id: u32)
        requires
            old(self).wf(),
            old(self).can_allocate(),
        ensures
            final(self).wf(),
            id != 0,
            !old(self).valid(id),
            final(self).valid(id),
            id == (if old(self).free_list().len() > 0 {
                old(self).free_list().last()
            } else {
                (old(self).slots() + 1) as u32
            }),
            final(self).free_list() == (if old(self).free_list().len() > 0 {
                old(self).free_list().drop_last()
            } else {
                old(self).free_list()
            }),
            final(self).slots() == (if old(self).free_list().len() > 0 {
                old(self).slots()
            } else {
                old(self).slots() + 1
            }),
            final(self).tag_of(id) == tag_for_name(tag@),
            final(self).parent_of(id) == 0,
            final(self).children_of(id) == Seq::<u32>::empty(),
            final(self).props_of(id).len() == 0,
            final(self).same_except(old(self), id),
            final(self).root_id() == old(self).root_id(),
            final(self).pending_events() == old(self).pending_events(),
            final(self).current_event() == old(self).current_event(),
    {
        let t = Tag::parse(tag);
        let ghost old_self = *self;
        if self.free.len() > 0 {
            let id = self.free.pop().unwrap();
            proof {
                assert(old_self.free@.contains(id));
                assert(old_self.dead_slot(id));
            }
            let i = (id - 1) as usize;
            self.live[i] = true;
            self.tags[i] = t;
            self.parents[i] = 0;
            self.kids[i] = Vec::new();
            self.props[i] = Vec::new();
            self.rank = Ghost(self.rank@.update(i as int, 0nat));
            proof {
                self.lemma_reuse_wf(&old_self, id);
            }
            id
        } else {
            self.live.push(true);
            self.tags.push(t);
            self.parents.push(0);
            self.kids.push(Vec::new());
            self.props.push(Vec::new());
            self.rank = Ghost(self.rank@.push(0nat));
            let id = self.live.len() as u32;
            proof {
                self.lemma_reuse_wf(&old_self, id);
            }
            id
        }
    }

    proof fn lemma_reuse_wf(&self, old: &Self, id: u32)
        requires
            old.wf(),
            !old.valid(id),
            1 <= id <= self.live@.len(),
            self.live@.len() < u32::MAX,
            self.live@.len() == old.live@.len() || (self.live@.len() == old.live@.len() + 1 && id == self.live@.len()),
            self.live@.len() == old.live@.len() ==> old.free@.len() > 0 && id == old.free@.last() && self.free@ == old.free@.drop_last(),
            self.live@.len() > old.live@.len() ==> old.free@.len() == 0 && self.free@ == old.free@,
            self.tags@.len() == self.live@.len(),
            self.parents@.len() == self.live@.len(),
            self.kids@.len() == self.live@.len(),
            self.props@.len() == self.live@.len(),
            self.rank@.len() == self.live@.len(),
            self.root == old.root,
            self.bound == old.bound,
            self.live@[id - 1],
            self.parent_of(id) == 0,
            self.children_of(id) == Seq::<u32>::empty(),
            self.rank_of(id) == 0,
            forall|x: u32| 1 <= x <= old.live@.len() && x != id ==> {
                &&& #[trigger] self.live@[x - 1] == old.live@[x - 1]
                &&& self.tags@[x - 1] == old.tags@[x - 1]
                &&& self.parents@[x - 1] == old.parents@[x - 1]
                &&& self.kids@[x - 1] == old.kids@[x - 1]
                &&& self.props@[x - 1] == old.props@[x - 1]
                &&& self.rank@[x - 1] == old.rank@[x - 1]
            },
        ensures
            self.wf(),
            self.same_except(old, id),
    {


        assert forall|x: u32| x != id implies #[trigger] self.valid(x) == old.valid(x) by {}
        assert forall|x: u32| #[trigger] self.valid(x) implies self.node_ok(x) by {
            if x != id {
                assert(self.live@[x - 1] == old.live@[x - 1]);
                assert(old.valid(x));
                assert(old.node_ok(x));
                assert(self.kids@[x - 1] == old.kids@[x - 1]);
                assert(self.children_of(x) == old.children_of(x));
                let cs = self.children_of(x);
                assert forall|k: int| 0 <= k < cs.len() implies #[trigger] self.valid(cs[k]) && self.parent_of(cs[k]) == x by {
                    assert(old.valid(cs[k]));
                    assert(self.live@[cs[k] - 1] == old.live@[cs[k] - 1]);
                    assert(self.parents@[cs[k] - 1] == old.parents@[cs[k] - 1]);
                }
                let p = self.parent_of(x);
                assert(self.parents@[x - 1] == old.parents@[x - 1]);
                assert(self.rank@[x - 1] == old.rank@[x - 1]);
                if p != 0 {
                    assert(old.valid(p));
                    assert(self.live@[p - 1] == old.live@[p - 1]);
                    assert(self.kids@[p - 1] == old.kids@[p - 1]);
                    assert(self.rank@[p - 1] == old.rank@[p - 1]);
                }
            } else {

            }
        }
        assert forall|f: int| 0 <= f < self.free@.len() implies #[trigger] self.dead_slot(self.free@[f]) by {
            assert(old.dead_slot(old.free@[f]));
            if self.live@.len() == old.live@.len() {
                assert(old.free@[f] != id);
            }
        }
        assert forall|x: u32| #[trigger] self.dead_slot(x) implies self.free@.contains(x) by {
            assert(old.dead_slot(x));
            assert(old.free@.contains(x));
            let k = choose|k: int| 0 <= k < old.free@.len() && old.free@[k] == x;
            if self.live@.len() == old.live@.len() {
                assert(k != old.free@.len() - 1);
                assert(self.free@[k] == x);
            }
        }
        assert forall|x: u32| x != id && #[trigger] old.valid(x) implies self.same_node(old, x) by {
            assert(self.live@[x - 1] == old.live@[x - 1]);
        }
    }
}

} // verus!

verus! {

/// Replacing the value of one prop leaves every other key's lookup alone, and
/// the replaced key answers the new value when no later prop shares it.
proof fn lemma_lookup_update(ps: Seq<Prop>, j: int, p: Prop, k: Seq<char>)
    requires
        0 <= j < ps.len(),
        p.key@ == ps[j].key@,
        forall|m: int| j < m < ps.len() ==> ps[m].key@ != ps[j].key@,
    ensures
        k != ps[j].key@ ==> prop_lookup(ps.update(j, p), k) == prop_lookup(ps, k),
        prop_lookup(ps.update(j, p), ps[j].key@) == Some(p.value),
    decreases ps.len(),
{
    let qs = ps.update(j, p);
    if j < ps.len() - 1 {
        assert(qs.drop_last() =~= ps.drop_last().update(j, p));
        lemma_lookup_update(ps.drop_last(), j, p, k);
    } else {
        assert(qs.drop_last() =~= ps.drop_last());
    }
}

/// Position of the last prop named `key`, if any.
fn find_prop(ps: &Vec<Prop>, key: &Vec<char>) -> (r: Option<usize>)
    ensures
        match r {
            Some(j) => j < ps@.len() && ps@[j as int].key@ == key@
                && forall|m: int| j < m < ps@.len() ==> ps@[m].key@ != key@,
            None => forall|m: int| 0 <= m < ps@.len() ==> ps@[m].key@ != key@,
        },
{
    let mut j = ps.len();
    while j > 0
        invariant
            j <= ps@.len(),
            forall|m: int| j <= m < ps@.len() ==> ps@[m].key@ != key@,
        decreases j,
    {
        let kj = chars_of(ps[j - 1].key.as_str());
        if crate::text::chars_eq(&kj, key) {
            return Some(j - 1);
        }
        j = j - 1;
    }
    None
}

/// The lookup answers the last prop with the key, and nothing when none has it.
proof fn lemma_lookup_found(ps: Seq<Prop>, k: Seq<char>, j: int)
    requires
        -1 <= j < ps.len(),
        j >= 0 ==> ps[j].key@ == k,
        forall|m: int| j < m < ps.len() ==> ps[m].key@ != k,
    ensures
        prop_lookup(ps, k) == (if j >= 0 { Some(ps[j].value) } else { None::<Value> }),
    decreases ps.len(),
{
    if ps.len() > 0 && j < ps.len() - 1 {
        lemma_lookup_found(ps.drop_last(), k, j);
    }
}

impl Tree {
    /// Set one prop on `id` (no-op for a node that is not there).
    pub fn set(&mut self, id: u32, key: &str, value: Value)
        requires
            old(self).wf(),
        ensures
            final(self).wf(),
            final(self).same_except(old(self), id),
            final(self).valid(id) == old(self).valid(id),
            old(self).valid(id) ==> {
                &&& final(self).tag_of(id) == old(self).tag_of(id)
                &&& final(self).parent_of(id) == old(self).parent_of(id)
                &&& final(self).children_of(id) == old(self).children_of(id)
                &&& prop_lookup(final(self).props_of(id), key@) == Some(value)
                &&& forall|k: Seq<char>| k != key@ ==> prop_lookup(final(self).props_of(id), k) == prop_lookup(old(self).props_of(id), k)
            },
            !old(self).valid(id) ==> *final(self) == *old(self),
            final(self).root_id() == old(self).root_id(),
            final(self).slots() == old(self).slots(),
            final(self).free_list() == old(self).free_list(),
            final(self).pending_events() == old(self).pending_events(),
            final(self).current_event() == old(self).current_event(),
    {
        if !self.is_live(id) {
            return;
        }
        let ghost old_self = *self;
        let i = (id - 1) as usize;
        let kc = chars_of(key);
        let found_at = find_prop(&self.props[i], &kc);
        let ghost ps = self.props@[i as int]@;
        if let Some(j) = found_at {
            let key_copy = self.props[i][j].key.clone();
            self.props[i][j] = Prop { key: key_copy, value };
            proof {
                let np = Prop { key: key_copy, value };
                assert(self.props@[i as int]@ =~= ps.update(j as int, np));
                assert forall|k: Seq<char>| k != key@ implies prop_lookup(self.props@[i as int]@, k) == prop_lookup(ps, k) by {
                    lemma_lookup_update(ps, j as int, np, k);
                }
                lemma_lookup_update(ps, j as int, np, key@);
            }
        } else {
            let owned = key.to_owned();
            self.props[i].push(Prop { key: owned, value });
            proof {
                assert(self.props@[i as int]@.drop_last() =~= ps);
                assert forall|k: Seq<char>| k != key@ implies prop_lookup(self.props@[i as int]@, k) == prop_lookup(ps, k) by {}
            }
        }
        proof {
            self.lemma_props_only_wf(&old_self, id);
        }
    }

    /// Drop every prop on `id`.
    pub fn clear_props(&mut self, id: u32)
        requires
            old(self).wf(),
        ensures
            final(self).wf(),
            final(self).same_except(old(self), id),
            final(self).valid(id) == old(self).valid(id),
            old(self).valid(id) ==> {
                &&& final(self).tag_of(id) == old(self).tag_of(id)
                &&& final(self).parent_of(id) == old(self).parent_of(id)
                &&& final(self).children_of(id) == old(self).children_of(id)
                &&& final(self).props_of(id).len() == 0
            },
            final(self).root_id() == old(self).root_id(),
            final(self).slots() == old(self).slots(),
            final(self).free_list() == old(self).free_list(),
            final(self).pending_events() == old(self).pending_events(),
            final(self).current_event() == old(self).current_event(),
    {
        if !self.is_live(id) {
            return;
        }
        let ghost old_self = *self;
        let i = (id - 1) as usize;
        self.props[i] = Vec::new();
        proof {
            self.lemma_props_only_wf(&old_self, id);
        }
    }

    proof fn lemma_props_only_wf(&self, old: &Self, id: u32)
        requires
            old.wf(),
            old.valid(id),
            self.live@ == old.live@,
            self.tags@ == old.tags@,
            self.parents@ == old.parents@,
            self.kids@ == old.kids@,
            self.rank@ == old.rank@,
            self.bound == old.bound,
            self.free@ == old.free@,
            self.root == old.root,
            self.props@.len() == old.props@.len(),
            forall|x: u32| 1 <= x <= old.live@.len() && x != id ==> #[trigger] self.props@[x - 1] == old.props@[x - 1],
        ensures
            self.wf(),
            self.same_except(old, id),
    {

        assert forall|x: u32| #[trigger] self.valid(x) implies self.node_ok(x) by {
            assert(old.valid(x));
            assert(old.node_ok(x));
            let cs = self.children_of(x);
            assert forall|k: int| 0 <= k < cs.len() implies #[trigger] self.valid(cs[k]) && self.parent_of(cs[k]) == x by {
                assert(old.valid(cs[k]));
            }
        }
        assert forall|f: int| 0 <= f < self.free@.len() implies #[trigger] self.dead_slot(self.free@[f]) by {
            assert(old.dead_slot(old.free@[f]));
        }
        assert forall|x: u32| #[trigger] self.dead_slot(x) implies self.free@.contains(x) by {
            assert(old.dead_slot(x));
        }
        assert forall|x: u32| x != id && #[trigger] old.valid(x) implies self.same_node(old, x) by {
            assert(self.props@[x - 1] == old.props@[x - 1]);
        }
    }

    proof fn lemma_same_structure(&self, old: &Self)
        requires
            old.wf(),
            self.live@ == old.live@,
            self.tags@ == old.tags@,
            self.parents@ == old.parents@,
            self.kids@ == old.kids@,
            self.props@ == old.props@,
            self.rank@ == old.rank@,
            self.bound == old.bound,
            self.free@ == old.free@,
            self.root == old.root,
        ensures
            self.wf(),
            self.same_except(old, 0),
    {

        assert forall|x: u32| #[trigger] self.valid(x) implies self.node_ok(x) by {
            assert(old.valid(x));
            assert(old.node_ok(x));
            let cs = self.children_of(x);
            assert forall|k: int| 0 <= k < cs.len() implies #[trigger] self.valid(cs[k]) && self.parent_of(cs[k]) == x by {
                assert(old.valid(cs[k]));
            }
        }
        assert forall|f: int| 0 <= f < self.free@.len() implies #[trigger] self.dead_slot(self.free@[f]) by {
            assert(old.dead_slot(old.free@[f]));
        }
        assert forall|x: u32| #[trigger] self.dead_slot(x) implies self.free@.contains(x) by {
            assert(old.dead_slot(x));
        }
        assert forall|x: u32| #[trigger] old.valid(x) implies self.same_node(old, x) by {}
    }

    /// The value of the prop `key` on `id`, if the node exists and has one.
    pub fn get(&self, id: u32, key: &str) -> (r: Option<&Value>)
        requires
            self.wf(),
        ensures
            match r {
                Some(v) => self.valid(id) && prop_lookup(self.props_of(id), key@) == Some(*v),
                None => !self.valid(id) || prop_lookup(self.props_of(id), key@) is None,
            },
    {
        if !self.is_live(id) {
            return None;
        }
        let i = (id - 1) as usize;
        let kc = chars_of(key);
        let ps = &self.props[i];
        match find_prop(ps, &kc) {
            Some(j) => {
                proof {
                    lemma_lookup_found(ps@, key@, j as int);
                }
                Some(&ps[j].value)
            },
            None => {
                proof {
                    lemma_lookup_found(ps@, key@, -1);
                }
                None
            },
        }
    }

    /// Queue an interaction against `node` for the caller to drain.
    pub fn emit(&mut self, node: u32, name: &str, text: String, num: u64)
        requires
            old(self).wf(),
        ensures
            final(self).wf(),
            final(self).pending_events().len() == old(self).pending_events().len() + 1,
            final(self).pending_events().drop_last() == old(self).pending_events(),
            final(self).pending_events().last().node == node,
            final(self).pending_events().last().name@ == name@,
            final(self).pending_events().last().text == text,
            final(self).pending_events().last().num == num,
            final(self).same_except(old(self), 0),
            final(self).root_id() == old(self).root_id(),
            final(self).slots() == old(self).slots(),
            final(self).free_list() == old(self).free_list(),
            final(self).current_event() == old(self).current_event(),
    {
        let owned = name.to_owned();
        self.pending.push_back(Event { node, name: owned, text, num });
        proof {
            assert(self.pending@.drop_last() =~= old(self).pending@);
            self.lemma_same_structure(old(self));
        }
    }

    /// Dequeue one event into the accessor slot. False when the queue is empty.
    pub fn poll(&mut self) -> (got: bool)
        requires
            old(self).wf(),
        ensures
            final(self).wf(),
            got == (old(self).pending_events().len() > 0),
            got ==> final(self).current_event() == Some(old(self).pending_events()[0])
                && final(self).pending_events() == old(self).pending_events().drop_first(),
            !got ==> final(self).current_event() is None
                && final(self).pending_events() == old(self).pending_events(),
            final(self).same_except(old(self), 0),
            final(self).root_id() == old(self).root_id(),
            final(self).slots() == old(self).slots(),
            final(self).free_list() == old(self).free_list(),
    {
        match self.pending.pop_front() {
            None => {
                self.current = None;
                proof {
                    self.lemma_same_structure(old(self));
                }
                false
            },
            Some(e) => {
                self.current = Some(e);
                proof {
                    assert(self.pending@ =~= old(self).pending@.drop_first());
                    self.lemma_same_structure(old(self));
                }
                true
            },
        }
    }

    /// The event most recently dequeued by [`Tree::poll`].
    pub fn current(&self) -> (r: Option<&Event>)
        ensures
            match r {
                Some(e) => self.current_event() == Some(*e),
                None => self.current_event() is None,
            },
    {
        self.current.as_ref()
    }
}

} // verus!

verus! {

/// `s` with every occurrence of `v` taken out, order kept.
pub open spec fn without(s: Seq<u32>, v: u32) -> Seq<u32>
    decreases s.len(),
{
    if s.len() == 0 {
        s
    } else if s.last() == v {
        without(s.drop_last(), v)
    } else {
        without(s.drop_last(), v).push(s.last())
    }
}

proof fn lemma_without_len(s: Seq<u32>, v: u32)
    ensures
        without(s, v).len() <= s.len(),
    decreases s.len(),
{
    if s.len() > 0 {
        lemma_without_len(s.drop_last(), v);
    }
}

proof fn lemma_without(s: Seq<u32>, v: u32)
    ensures
        forall|y: u32| #[trigger] without(s, v).contains(y) <==> s.contains(y) && y != v,
        s.no_duplicates() ==> without(s, v).no_duplicates(),
        !s.contains(v) ==> without(s, v) == s,
    decreases s.len(),
{
    if s.len() > 0 {
        lemma_without(s.drop_last(), v);
        let w = without(s.drop_last(), v);
        assert forall|y: u32| #[trigger] without(s, v).contains(y) <==> s.contains(y) && y != v by {
            if s.last() != v {
                if without(s, v).contains(y) {
                    let k = choose|k: int| 0 <= k < without(s, v).len() && without(s, v)[k] == y;
                    if k < w.len() {
                        assert(w[k] == y);
                        assert(w.contains(y));
                        let k2 = choose|k2: int| 0 <= k2 < s.drop_last().len() && s.drop_last()[k2] == y;
                        assert(s[k2] == y);
                    } else {
                        assert(s[s.len() - 1] == y);
                    }
                }
                if s.contains(y) && y != v {
                    let k = choose|k: int| 0 <= k < s.len() && s[k] == y;
                    if k < s.len() - 1 {
                        assert(s.drop_last()[k] == y);
                        assert(w.contains(y));
                        let k2 = choose|k2: int| 0 <= k2 < w.len() && w[k2] == y;
                        assert(without(s, v)[k2] == y);
                    } else {
                        assert(without(s, v)[w.len() as int] == y);
                    }
                }
            } else {
                if s.contains(y) && y != v {
                    let k = choose|k: int| 0 <= k < s.len() && s[k] == y;
                    assert(k < s.len() - 1);
                    assert(s.drop_last()[k] == y);
                }
                if without(s, v).contains(y) {
                    let k2 = choose|k2: int| 0 <= k2 < s.drop_last().len() && s.drop_last()[k2] == y;
                    assert(s[k2] == y);
                }
            }
        }
        if s.no_duplicates() {
            assert(s.drop_last().no_duplicates());
            if s.last() != v {
                assert(!s.drop_last().contains(s.last()));
                assert(!w.contains(s.last()));
            }
        }
        if !s.contains(v) {
            assert(!s.drop_last().contains(v));
            assert(s.drop_last().push(s.last()) =~= s);
        }
    }
}

impl Tree {
    /// Every live node's parent is live and strictly above it.
    pub open spec fn ranked(&self) -> bool {
        forall|x: u32| #[trigger] self.valid(x) ==> {
            &&& self.rank_of(x) < self.height_bound()
            &&& self.parent_of(x) != 0 ==> self.valid(self.parent_of(x))
                && self.rank_of(self.parent_of(x)) > self.rank_of(x)
        }
    }

    /// Walking up parent links from `x` meets `a`: `x` is `a` or lies under it.
    pub open spec fn reaches(&self, x: u32, a: u32) -> bool
        decreases self.height_bound() - self.rank_of(x),
        when self.ranked()
    {
        if x == a {
            true
        } else if !self.valid(x) || self.parent_of(x) == 0 {
            false
        } else {
            self.reaches(self.parent_of(x), a)
        }
    }

    /// A well-formed arena is ranked: every live node's parent is live and
    /// strictly above it, so climbing parent links always ends.
    pub proof fn lemma_wf_ranked(&self)
        requires
            self.wf(),
        ensures
            self.ranked(),
    {
        assert forall|x: u32| #[trigger] self.valid(x) implies {
            &&& self.rank_of(x) < self.height_bound()
            &&& self.parent_of(x) != 0 ==> self.valid(self.parent_of(x))
                && self.rank_of(self.parent_of(x)) > self.rank_of(x)
        } by {
            assert(self.node_ok(x));
        }
    }

    /// A node reaches its ancestors only by climbing, so it sits strictly
    /// below any other node it reaches.
    proof fn lemma_reaches_rank(&self, y: u32, a: u32)
        requires
            self.ranked(),
            self.valid(y),
            self.reaches(y, a),
        ensures
            y == a || (self.valid(a) && self.rank_of(y) < self.rank_of(a)),
        decreases self.bound@ - self.rank_of(y),
    {
        if y != a {
            let p = self.parent_of(y);
            self.lemma_reaches_rank(p, a);
        }
    }

    /// Climbing from `y` to `c` continues to the parent of `c`.
    proof fn lemma_reaches_parent(&self, y: u32, c: u32)
        requires
            self.ranked(),
            self.reaches(y, c),
            self.valid(c),
            self.parent_of(c) != 0,
        ensures
            self.reaches(y, self.parent_of(c)),
        decreases self.bound@ - self.rank_of(y),
    {
        if y != c {
            if y != self.parent_of(c) {
                self.lemma_reaches_parent(self.parent_of(y), c);
            }
        } else {
            let p = self.parent_of(c);
            assert(self.reaches(p, p));
        }
    }

    /// True when parenting `child` under `parent` would make a loop — `child`
    /// is `parent`, or an ancestor of it.
    fn would_cycle(&self, parent: u32, child: u32) -> (b: bool)
        requires
            self.wf(),
            child != 0,
        ensures
            b == self.reaches(parent, child),
    {
        proof {
            self.lemma_wf_ranked();
        }
        let mut at = parent;
        while at != 0
            invariant
                self.wf(),
                self.ranked(),
                child != 0,
                self.reaches(parent, child) == self.reaches(at, child),
            decreases (if self.valid(at) { self.bound@ - self.rank_of(at) + 2 } else if at != 0 { 1int } else { 0int }),
        {
            if at == child {
                return true;
            }
            if self.is_live(at) {
                proof {
                    assert(self.node_ok(at));
                }
                at = self.parents[(at - 1) as usize];
            } else {
                at = 0;
            }
        }
        false
    }
}

} // verus!

verus! {

/// `s` with every occurrence of `v` taken out, as a fresh vector.
fn vec_without(s: &Vec<u32>, v: u32) -> (out: Vec<u32>)
    ensures
        out@ == without(s@, v),
{
    let mut out: Vec<u32> = Vec::new();
    let mut j: usize = 0;
    while j < s.len()
        invariant
            j <= s.len(),
            out@ == without(s@.take(j as int), v),
        decreases s.len() - j,
    {
        proof {
            assert(s@.take(j + 1).drop_last() =~= s@.take(j as int));
        }
        if s[j] != v {
            out.push(s[j]);
        }
        j = j + 1;
    }
    proof {
        assert(s@.take(j as int) =~= s@);
    }
    out
}

impl Tree {
    /// Unparent `child` without freeing it.
    fn detach(&mut self, child: u32)
        requires
            old(self).wf(),
            old(self).valid(child),
        ensures
            final(self).wf(),
            final(self).live@ == old(self).live@,
            final(self).tags@ == old(self).tags@,
            final(self).props@ == old(self).props@,
            final(self).rank@ == old(self).rank@,
            final(self).bound == old(self).bound,
            final(self).free@ == old(self).free@,
            final(self).root == old(self).root,
            final(self).pending@ == old(self).pending@,
            final(self).current == old(self).current,
            final(self).parents@ == old(self).parents@.update(child - 1, 0u32),
            final(self).kids@.len() == old(self).kids@.len(),
            forall|x: u32| 1 <= x <= old(self).kids@.len() && x != old(self).parent_of(child) ==> #[trigger] final(self).kids@[x - 1] == old(self).kids@[x - 1],
            old(self).parent_of(child) != 0 ==> final(self).children_of(old(self).parent_of(child))
                == without(old(self).children_of(old(self).parent_of(child)), child),
    {
        let ghost old_self = *self;
        let ci = (child - 1) as usize;
        let p = self.parents[ci];
        if p != 0 {
            proof {
                assert(old_self.node_ok(child));
            }
            let pi = (p - 1) as usize;
            let nk = vec_without(&self.kids[pi], child);
            self.kids[pi] = nk;
        }
        self.parents[ci] = 0;
        proof {
            self.lemma_detach_wf(&old_self, child);
        }
    }

    proof fn lemma_detach_wf(&self, old: &Self, child: u32)
        requires
            old.wf(),
            old.valid(child),
            self.live@ == old.live@,
            self.tags@ == old.tags@,
            self.props@ == old.props@,
            self.rank@ == old.rank@,
            self.bound == old.bound,
            self.free@ == old.free@,
            self.root == old.root,
            self.parents@ == old.parents@.update(child - 1, 0u32),
            self.kids@.len() == old.kids@.len(),
            forall|x: u32| 1 <= x <= old.kids@.len() && x != old.parent_of(child) ==> #[trigger] self.kids@[x - 1] == old.kids@[x - 1],
            old.parent_of(child) != 0 ==> self.children_of(old.parent_of(child))
                == without(old.children_of(old.parent_of(child)), child),
        ensures
            self.wf(),
    {
        let p = old.parent_of(child);
        assert forall|x: u32| #[trigger] self.valid(x) implies self.node_ok(x) by {
            assert(old.valid(x));
            assert(old.node_ok(x));
            let cs = self.children_of(x);
            if x == p {
                lemma_without(old.children_of(x), child);
                assert forall|k: int| 0 <= k < cs.len() implies #[trigger] self.valid(cs[k]) && self.parent_of(cs[k]) == x by {
                    assert(cs.contains(cs[k]));
                    assert(old.children_of(x).contains(cs[k]));
                    let k2 = choose|k2: int| 0 <= k2 < old.children_of(x).len() && old.children_of(x)[k2] == cs[k];
                    assert(old.valid(old.children_of(x)[k2]));
                }
            } else {
                assert(self.kids@[x - 1] == old.kids@[x - 1]);
                assert forall|k: int| 0 <= k < cs.len() implies #[trigger] self.valid(cs[k]) && self.parent_of(cs[k]) == x by {
                    assert(old.valid(cs[k]));
                    if cs[k] == child {
                        assert(old.parent_of(child) == x);
                    }
                }
            }
            let q = self.parent_of(x);
            if x != child && q != 0 {
                assert(old.parent_of(x) == q);
                assert(old.valid(q));
                if q == p {
                    lemma_without(old.children_of(q), child);
                    assert(old.children_of(q).contains(x));
                } else {
                    assert(self.kids@[q - 1] == old.kids@[q - 1]);
                }
            }
        }
        assert forall|f: int| 0 <= f < self.free@.len() implies #[trigger] self.dead_slot(self.free@[f]) by {
            assert(old.dead_slot(old.free@[f]));
        }
        assert forall|x: u32| #[trigger] self.dead_slot(x) implies self.free@.contains(x) by {
            assert(old.dead_slot(x));
        }
    }
}

} // verus!

verus! {

proof fn lemma_insert_contains(s: Seq<u32>, i: int, v: u32)
    requires
        0 <= i <= s.len(),
    ensures
        forall|y: u32| #[trigger] s.insert(i, v).contains(y) <==> s.contains(y) || y == v,
        s.no_duplicates() && !s.contains(v) ==> s.insert(i, v).no_duplicates(),
{
    let t = s.insert(i, v);
    assert forall|y: u32| #[trigger] t.contains(y) <==> s.contains(y) || y == v by {
        if t.contains(y) {
            let k = choose|k: int| 0 <= k < t.len() && t[k] == y;
            if k < i {
                assert(s[k] == y);
            } else if k > i {
                assert(s[k - 1] == y);
            }
        }
        if s.contains(y) {
            let k = choose|k: int| 0 <= k < s.len() && s[k] == y;
            if k < i {
                assert(t[k] == y);
            } else {
                assert(t[k + 1] == y);
            }
        }
        if y == v {
            assert(t[i] == v);
        }
    }
    if s.no_duplicates() && !s.contains(v) {
        assert forall|a: int, b: int| 0 <= a < t.len() && 0 <= b < t.len() && a != b implies t[a] != t[b] by {
            if a == i {
                if b < i { assert(s[b] == t[b]); } else { assert(s[b - 1] == t[b]); }
            } else if b == i {
                if a < i { assert(s[a] == t[a]); } else { assert(s[a - 1] == t[a]); }
            } else {
                let a2 = if a < i { a } else { a - 1 };
                let b2 = if b < i { b } else { b - 1 };
                assert(s[a2] == t[a]);
                assert(s[b2] == t[b]);
            }
        }
    }
}

impl Tree {
    /// Parent a detached `child` under `parent` at `index` (clamped to the end).
    #[verifier::spinoff_prover]
    #[verifier::rlimit(40)]
    fn attach(&mut self, parent: u32, child: u32, index: usize)
        requires
            old(self).wf(),
            old(self).valid(parent),
            old(self).valid(child),
            old(self).parent_of(child) == 0,
            !old(self).reaches(parent, child),
        ensures
            final(self).wf(),
            final(self).live@ == old(self).live@,
            final(self).tags@ == old(self).tags@,
            final(self).props@ == old(self).props@,
            final(self).free@ == old(self).free@,
            final(self).root == old(self).root,
            final(self).pending@ == old(self).pending@,
            final(self).current == old(self).current,
            final(self).parents@ == old(self).parents@.update(child - 1, parent),
            final(self).kids@.len() == old(self).kids@.len(),
            forall|x: u32| 1 <= x <= old(self).kids@.len() && x != parent ==> #[trigger] final(self).kids@[x - 1] == old(self).kids@[x - 1],
            final(self).children_of(parent) == old(self).children_of(parent).insert(
                if index < old(self).children_of(parent).len() { index as int } else { old(self).children_of(parent).len() as int },
                child,
            ),
    {
        let ghost t1 = *self;
        proof {
            t1.lemma_wf_ranked();
        }
        let pi = (parent - 1) as usize;
        let len = self.kids[pi].len();
        let at = if index < len { index } else { len };
        self.kids[pi].insert(at, child);
        self.parents[(child - 1) as usize] = parent;
        let ghost k: nat = t1.rank_of(child) + 1;
        let ghost nr: Seq<nat> = Seq::new(t1.rank@.len(), |i: int|
            if t1.live@[i] && t1.reaches((i + 1) as u32, child) { t1.rank@[i] } else { t1.rank@[i] + k });
        self.rank = Ghost(nr);
        self.bound = Ghost(t1.bound@ + k);
        proof {
            let ins = t1.children_of(parent).insert(at as int, child);
            assert(self.children_of(parent) == ins);
            assert(t1.node_ok(parent));
            assert(!t1.children_of(parent).contains(child)) by {
                if t1.children_of(parent).contains(child) {
                    let j = choose|j: int| 0 <= j < t1.children_of(parent).len() && t1.children_of(parent)[j] == child;
                    assert(t1.parent_of(t1.children_of(parent)[j]) == parent);
                }
            }
            lemma_insert_contains(t1.children_of(parent), at as int, child);
            assert forall|x: u32| #[trigger] self.valid(x) implies self.node_ok(x) by {
                assert(t1.valid(x));
                assert(t1.node_ok(x));
                let cs = self.children_of(x);
                assert forall|j: int| 0 <= j < cs.len() implies #[trigger] self.valid(cs[j]) && self.parent_of(cs[j]) == x by {
                    if x == parent {
                        if cs[j] != child {
                            assert(cs.contains(cs[j]));
                            assert(t1.children_of(x).contains(cs[j]));
                            let j2 = choose|j2: int| 0 <= j2 < t1.children_of(x).len() && t1.children_of(x)[j2] == cs[j];
                            assert(t1.valid(t1.children_of(x)[j2]));
                        }
                    } else {
                        assert(self.kids@[x - 1] == t1.kids@[x - 1]);
                        assert(t1.valid(cs[j]));
                        assert(cs[j] != child);
                    }
                }
                let q = self.parent_of(x);
                if x != child && q != 0 {
                    assert(t1.parent_of(x) == q);
                    assert(t1.valid(q));
                    if q == parent {
                        assert(t1.children_of(q).contains(x));
                    } else {
                        assert(self.kids@[q - 1] == t1.kids@[q - 1]);
                    }
                    assert(t1.node_ok(q));
                    if t1.reaches(x, child) {
                        assert(t1.reaches(q, child));
                    } else {
                        assert(!t1.reaches(q, child));
                    }
                }
                if x == child {
                    assert(t1.reaches(child, child));
                    assert(t1.valid(parent));
                }
            }
            assert forall|f: int| 0 <= f < self.free@.len() implies #[trigger] self.dead_slot(self.free@[f]) by {
                assert(t1.dead_slot(t1.free@[f]));
            }
            assert forall|x: u32| #[trigger] self.dead_slot(x) implies self.free@.contains(x) by {
                assert(t1.dead_slot(x));
            }
        }
    }
}

} // verus!

verus! {

/// Index of the first `v` in `s`, or -1 when there is none.
pub open spec fn first_index(s: Seq<u32>, v: u32) -> int {
    if exists|i: int| 0 <= i < s.len() && s[i] == v && forall|m: int| 0 <= m < i ==> s[m] != v {
        choose|i: int| 0 <= i < s.len() && s[i] == v && forall|m: int| 0 <= m < i ==> s[m] != v
    } else {
        -1
    }
}

/// In a list without repeats, taking out `v` removes the one place it sits.
proof fn lemma_without_at(cs: Seq<u32>, v: u32, i: int)
    requires
        cs.no_duplicates(),
        0 <= i < cs.len(),
        cs[i] == v,
    ensures
        without(cs, v) == cs.remove(i),
    decreases cs.len(),
{
    let d = cs.drop_last();
    if i == cs.len() - 1 {
        assert(!d.contains(v)) by {
            if d.contains(v) {
                let j = choose|j: int| 0 <= j < d.len() && d[j] == v;
                assert(cs[j] == cs[i]);
            }
        }
        lemma_without(d, v);
        assert(d =~= cs.remove(i));
    } else {
        assert(d.no_duplicates());
        lemma_without_at(d, v, i);
        assert(cs.last() != v) by {
            assert(cs[cs.len() - 1] != cs[i]);
        }
        assert(d.remove(i).push(cs.last()) =~= cs.remove(i));
    }
}

/// Where `insert_after` puts `child` in a list without repeats: first when
/// `sibling` is 0, and otherwise immediately after `sibling`, wherever the
/// child stood before.
pub proof fn lemma_after_places(cs: Seq<u32>, child: u32, sibling: u32)
    requires
        cs.no_duplicates(),
        sibling != 0 ==> cs.contains(sibling),
        child != sibling,
    ensures
        ({
            let base = without(cs, child);
            let k = Tree::after_index(cs, child, sibling);
            let f = base.insert(if k < base.len() { k } else { base.len() as int }, child);
            &&& f.len() == base.len() + 1
            &&& sibling == 0 ==> f[0] == child
            &&& sibling != 0 ==> 0 <= first_index(f, sibling) && first_index(f, sibling) + 1 < f.len()
                && f[first_index(f, sibling) + 1] == child
        }),
{
    let base = without(cs, child);
    let k = Tree::after_index(cs, child, sibling);
    lemma_without(cs, child);
    lemma_without_len(cs, child);
    if sibling != 0 {
        let ps = choose|j: int| 0 <= j < cs.len() && cs[j] == sibling;
        assert forall|m: int| 0 <= m < ps implies cs[m] != sibling by {
            if cs[m] == sibling {
                assert(cs[m] == cs[ps]);
            }
        }
        lemma_first_index_unique(cs, sibling, ps);
        if cs.contains(child) {
            let ci = choose|j: int| 0 <= j < cs.len() && cs[j] == child;
            assert forall|m: int| 0 <= m < ci implies cs[m] != child by {
                if cs[m] == child {
                    assert(cs[m] == cs[ci]);
                }
            }
            lemma_first_index_unique(cs, child, ci);
            lemma_without_at(cs, child, ci);
            assert(base == cs.remove(ci));
            let pb = if ci < ps { ps - 1 } else { ps };
            assert(base[pb] == sibling);
            assert(k == pb + 1);
            let f = base.insert(pb + 1, child);
            assert(f[pb] == sibling);
            assert(f[pb + 1] == child);
            assert forall|m: int| 0 <= m < pb implies f[m] != sibling by {
                assert(f[m] == base[m]);
                if m < ci {
                    assert(base[m] == cs[m]);
                } else {
                    assert(base[m] == cs[m + 1]);
                }
            }
            lemma_first_index_unique(f, sibling, pb);
        } else {
            assert(first_index(cs, child) == -1) by {
                if first_index(cs, child) != -1 {
                    let j = first_index(cs, child);
                    assert(cs[j] == child);
                }
            }
            assert(base == cs);
            assert(k == ps + 1);
            let f = base.insert(ps + 1, child);
            assert(f[ps] == sibling);
            assert(f[ps + 1] == child);
            assert forall|m: int| 0 <= m < ps implies f[m] != sibling by {
                assert(f[m] == cs[m]);
            }
            lemma_first_index_unique(f, sibling, ps);
        }
    } else {
        assert(k == 0);
    }
}

proof fn lemma_first_index_unique(s: Seq<u32>, v: u32, i: int)
    requires
        0 <= i < s.len(),
        s[i] == v,
        forall|m: int| 0 <= m < i ==> s[m] != v,
    ensures
        first_index(s, v) == i,
{
    let j = first_index(s, v);
    assert(0 <= j < s.len() && s[j] == v && forall|m: int| 0 <= m < j ==> s[m] != v);
    if j < i {
        assert(s[j] != v);
    } else if i < j {
        assert(s[i] != v);
    }
}

fn position(s: &Vec<u32>, v: u32) -> (r: Option<usize>)
    ensures
        match r {
            Some(i) => i < s@.len() && i == first_index(s@, v),
            None => first_index(s@, v) == -1 && !s@.contains(v),
        },
{
    let mut i: usize = 0;
    while i < s.len()
        invariant
            i <= s.len(),
            forall|m: int| 0 <= m < i ==> s@[m] != v,
        decreases s.len() - i,
    {
        if s[i] == v {
            proof {
                lemma_first_index_unique(s@, v, i as int);
            }
            return Some(i);
        }
        i = i + 1;
    }
    None
}

impl Tree {
    /// `self` is `old` with `child` moved under `parent` at position `index`
    /// (clamped to the end) among the siblings it did not already sit in.
    pub open spec fn inserted(&self, old: &Self, parent: u32, child: u32, index: int) -> bool {
        let op = old.parent_of(child);
        let base = without(old.children_of(parent), child);
        &&& self.wf()
        &&& forall|x: u32| #[trigger] self.valid(x) == old.valid(x)
        &&& self.parent_of(child) == parent
        &&& self.children_of(parent) == base.insert(if index < base.len() { index } else { base.len() as int }, child)
        &&& (op != 0 && op != parent) ==> self.children_of(op) == without(old.children_of(op), child)
        &&& forall|x: u32|
            #![trigger old.valid(x)]
            #![trigger self.children_of(x)]
            old.valid(x) && x != parent && x != op ==> self.children_of(x) == old.children_of(x)
        &&& forall|x: u32|
            #![trigger old.valid(x)]
            #![trigger self.parent_of(x)]
            old.valid(x) && x != child ==> self.parent_of(x) == old.parent_of(x)
        &&& forall|x: u32|
            #![trigger old.valid(x)]
            #![trigger self.tag_of(x)]
            #![trigger self.props_of(x)]
            old.valid(x) ==> self.tag_of(x) == old.tag_of(x) && self.props_of(x) == old.props_of(x)
        &&& self.root_id() == old.root_id()
        &&& self.slots() == old.slots()
        &&& self.free_list() == old.free_list()
        &&& self.pending_events() == old.pending_events()
        &&& self.current_event() == old.current_event()
    }

    /// Whether `insert_at` goes ahead: both nodes exist and the move closes no loop.
    pub open spec fn can_insert(&self, parent: u32, child: u32) -> bool {
        parent != 0 && child != 0 && self.valid(parent) && self.valid(child) && !self.reaches(parent, child)
    }

    fn insert_at(&mut self, parent: u32, child: u32, index: usize) -> (ok: bool)
        requires
            old(self).wf(),
        ensures
            final(self).wf(),
            ok == old(self).can_insert(parent, child),
            ok ==> final(self).inserted(old(self), parent, child, index as int),
            !ok ==> *final(self) == *old(self),
    {
        if parent == 0 || child == 0 || !self.is_live(parent) || !self.is_live(child) {
            return false;
        }
        if self.would_cycle(parent, child) {
            return false;
        }
        let ghost t0 = *self;
        proof {
            t0.lemma_wf_ranked();
            assert(t0.node_ok(child));
        }
        self.detach(child);
        let ghost t1 = *self;
        proof {
            t1.lemma_wf_ranked();
            t0.lemma_frame_unparent(&t1, parent, child);
        }
        self.attach(parent, child, index);
        proof {
            let op = t0.parent_of(child);
            lemma_without(t0.children_of(parent), child);
            if op != parent {
                if t0.children_of(parent).contains(child) {
                    let j = choose|j: int| 0 <= j < t0.children_of(parent).len() && t0.children_of(parent)[j] == child;
                    assert(t0.node_ok(parent));
                    assert(t0.parent_of(t0.children_of(parent)[j]) == parent);
                }
                assert(without(t0.children_of(parent), child) == t0.children_of(parent));
                assert(t1.kids@[parent - 1] == t0.kids@[parent - 1]);
            }
            assert forall|x: u32| #[trigger] t0.valid(x) && x != parent && x != op implies self.children_of(x) == t0.children_of(x) by {
                assert(self.kids@[x - 1] == t1.kids@[x - 1]);
                assert(t1.kids@[x - 1] == t0.kids@[x - 1]);
            }
            if op != 0 && op != parent {
                assert(self.kids@[op - 1] == t1.kids@[op - 1]);
            }
            assert forall|x: u32| #[trigger] t0.valid(x) && x != child implies self.parent_of(x) == t0.parent_of(x) by {}
        }
        true
    }

    /// Clearing the parent link of `c` changes no other climb towards `c`.
    proof fn lemma_frame_unparent(&self, t1: &Self, x: u32, c: u32)
        requires
            self.ranked(),
            t1.ranked(),
            t1.live@ == self.live@,
            t1.rank@ == self.rank@,
            t1.bound == self.bound,
            t1.parents@ == self.parents@.update(c - 1, 0u32),
            self.parents@.len() == self.live@.len(),
            1 <= c <= self.live@.len(),
        ensures
            t1.reaches(x, c) == self.reaches(x, c),
        decreases self.bound@ - self.rank_of(x),
    {
        if x != c && self.valid(x) && self.parent_of(x) != 0 {
            assert(t1.parent_of(x) == self.parent_of(x));
            self.lemma_frame_unparent(t1, self.parent_of(x), c);
        }
    }

    /// Parent `child` under `parent` as its last child, moving it from any
    /// earlier parent. Refused (false) when either node is missing or the move
    /// would make `parent` its own descendant.
    pub fn append(&mut self, parent: u32, child: u32) -> (ok: bool)
        requires
            old(self).wf(),
        ensures
            final(self).wf(),
            ok == old(self).can_insert(parent, child),
            ok ==> final(self).inserted(old(self), parent, child, usize::MAX as int),
            ok ==> final(self).children_of(parent).len() > 0
                && final(self).children_of(parent).last() == child,
            !ok ==> *final(self) == *old(self),
    {
        let ok = self.insert_at(parent, child, usize::MAX);
        proof {
            if ok {
                let base = without(old(self).children_of(parent), child);
                lemma_without_len(old(self).children_of(parent), child);
                let kids = &old(self).kids@[parent - 1];
                assert(kids@.len() == kids.len());
                assert(base.len() <= usize::MAX);
            }
        }
        ok
    }

    /// Move `child` to sit immediately after `sibling`; `sibling` 0 means first.
    pub fn insert_after(&mut self, parent: u32, child: u32, sibling: u32) -> (ok: bool)
        requires
            old(self).wf(),
        ensures
            final(self).wf(),
            ok == (old(self).valid(parent) && old(self).valid(child)
                && (sibling == 0 || old(self).children_of(parent).contains(sibling))
                && old(self).can_insert(parent, child)),
            ok ==> final(self).inserted(old(self), parent, child, Self::after_index(old(self).children_of(parent), child, sibling)),
            ok && sibling == 0 ==> final(self).children_of(parent).len() > 0
                && final(self).children_of(parent)[0] == child,
            ok && sibling != 0 && child != sibling ==> {
                let f = final(self).children_of(parent);
                &&& 0 <= first_index(f, sibling)
                &&& first_index(f, sibling) + 1 < f.len()
                &&& f[first_index(f, sibling) + 1] == child
            },
            !ok ==> *final(self) == *old(self),
    {
        if !self.is_live(parent) || !self.is_live(child) {
            return false;
        }
        let pi = (parent - 1) as usize;
        let klen = self.kids[pi].len();
        let index = if sibling == 0 {
            0
        } else {
            match position(&self.kids[pi], sibling) {
                Some(i) => {
                    assert(i < klen);
                    i + 1
                },
                None => {
                    return false;
                },
            }
        };
        let before = match position(&self.kids[pi], child) {
            Some(i) => i < index,
            None => false,
        };
        let at = if before { index - 1 } else { index };
        proof {
            if sibling != 0 {
                assert(self.children_of(parent).contains(sibling));
            }
            assert(self.node_ok(parent));
        }
        let ghost cs = self.children_of(parent);
        let ok = self.insert_at(parent, child, at);
        proof {
            if ok && child != sibling {
                lemma_after_places(cs, child, sibling);
            }
        }
        ok
    }

    /// Where `insert_after` puts `child`: after `sibling` once `child` is out of the list.
    pub open spec fn after_index(cs: Seq<u32>, child: u32, sibling: u32) -> int {
        let index = if sibling == 0 { 0 } else { first_index(cs, sibling) + 1 };
        let ci = first_index(cs, child);
        if ci >= 0 && ci < index { index - 1 } else { index }
    }
}

} // verus!

verus! {

proof fn lemma_concat_no_dup(a: Seq<u32>, b: Seq<u32>)
    requires
        a.no_duplicates(),
        b.no_duplicates(),
        forall|y: u32| a.contains(y) ==> !b.contains(y),
    ensures
        (a + b).no_duplicates(),
        forall|y: u32| #[trigger] (a + b).contains(y) <==> a.contains(y) || b.contains(y),
{
    let c = a + b;
    assert forall|i: int, j: int| 0 <= i < c.len() && 0 <= j < c.len() && i != j implies c[i] != c[j] by {
        if i < a.len() && j >= a.len() {
            assert(a.contains(c[i]));
            assert(b[j - a.len()] == c[j]);
            assert(b.contains(c[j]));
        } else if j < a.len() && i >= a.len() {
            assert(a.contains(c[j]));
            assert(b[i - a.len()] == c[i]);
            assert(b.contains(c[i]));
        } else if i >= a.len() && j >= a.len() {
            assert(b[i - a.len()] == c[i]);
            assert(b[j - a.len()] == c[j]);
        }
    }
    assert forall|y: u32| #[trigger] c.contains(y) <==> a.contains(y) || b.contains(y) by {
        if c.contains(y) {
            let k = choose|k: int| 0 <= k < c.len() && c[k] == y;
            if k < a.len() {
                assert(a[k] == y);
            } else {
                assert(b[k - a.len()] == y);
            }
        }
        if a.contains(y) {
            let k = choose|k: int| 0 <= k < a.len() && a[k] == y;
            assert(c[k] == y);
        }
        if b.contains(y) {
            let k = choose|k: int| 0 <= k < b.len() && b[k] == y;
            assert(c[k + a.len()] == y);
        }
    }
}

impl Tree {
    /// The subtree under `x` (itself included) in depth-first pre-order.
    pub closed spec fn preorder(&self, x: u32) -> Seq<u32>
        decreases self.rank_of(x), 1nat, 0nat,
    {
        seq![x] + self.preorder_list(self.children_of(x), self.rank_of(x))
    }

    /// The pre-orders of the nodes in `cs` below height `r`, one after another.
    pub closed spec fn preorder_list(&self, cs: Seq<u32>, r: nat) -> Seq<u32>
        decreases r, 0nat, cs.len(),
    {
        if cs.len() == 0 {
            Seq::empty()
        } else if self.rank_of(cs.last()) < r {
            self.preorder_list(cs.drop_last(), r) + self.preorder(cs.last())
        } else {
            self.preorder_list(cs.drop_last(), r)
        }
    }

    /// The pre-orders of the nodes in `cs`, one after another.
    pub open spec fn forest_preorder(&self, cs: Seq<u32>) -> Seq<u32>
        decreases cs.len(),
    {
        if cs.len() == 0 {
            Seq::empty()
        } else {
            self.forest_preorder(cs.drop_last()) + self.preorder(cs.last())
        }
    }

    /// In a well-formed arena the pre-order of a node is the node followed by
    /// the pre-orders of its children, in order.
    pub proof fn lemma_preorder_unfold(&self, x: u32)
        requires
            self.wf(),
            self.valid(x),
        ensures
            self.preorder(x) == seq![x] + self.forest_preorder(self.children_of(x)),
    {
        assert(self.node_ok(x));
        let cs = self.children_of(x);
        assert forall|k: int| 0 <= k < cs.len() implies #[trigger] self.rank_of(cs[k]) < self.rank_of(x) by {
            assert(self.valid(cs[k]));
            assert(self.node_ok(cs[k]));
        }
        self.lemma_list_forest(cs, self.rank_of(x));
    }

    proof fn lemma_list_forest(&self, cs: Seq<u32>, r: nat)
        requires
            forall|k: int| 0 <= k < cs.len() ==> #[trigger] self.rank_of(cs[k]) < r,
        ensures
            self.preorder_list(cs, r) == self.forest_preorder(cs),
        decreases cs.len(),
    {
        if cs.len() > 0 {
            let d = cs.drop_last();
            assert forall|k: int| 0 <= k < d.len() implies #[trigger] self.rank_of(d[k]) < r by {
                assert(d[k] == cs[k]);
            }
            self.lemma_list_forest(d, r);
            assert(self.rank_of(cs[cs.len() - 1]) < r);
        }
    }

    proof fn lemma_list_member(&self, cs: Seq<u32>, r: nat, y: u32)
        requires
            self.preorder_list(cs, r).contains(y),
        ensures
            exists|j: int| 0 <= j < cs.len() && self.rank_of(cs[j]) < r && #[trigger] self.preorder(cs[j]).contains(y),
        decreases cs.len(),
    {
        if cs.len() > 0 {
            let rest = self.preorder_list(cs.drop_last(), r);
            if self.rank_of(cs.last()) < r {
                lemma_concat_contains(rest, self.preorder(cs.last()), y);
                if rest.contains(y) {
                    self.lemma_list_member(cs.drop_last(), r, y);
                    let j = choose|j: int| 0 <= j < cs.drop_last().len() && self.rank_of(cs.drop_last()[j]) < r && #[trigger] self.preorder(cs.drop_last()[j]).contains(y);
                    assert(cs[j] == cs.drop_last()[j]);
                } else {
                    assert(self.preorder(cs[cs.len() - 1]).contains(y));
                }
            } else {
                self.lemma_list_member(cs.drop_last(), r, y);
                let j = choose|j: int| 0 <= j < cs.drop_last().len() && self.rank_of(cs.drop_last()[j]) < r && #[trigger] self.preorder(cs.drop_last()[j]).contains(y);
                assert(cs[j] == cs.drop_last()[j]);
            }
        }
    }

    proof fn lemma_list_superset(&self, cs: Seq<u32>, r: nat, j: int, y: u32)
        requires
            0 <= j < cs.len(),
            self.rank_of(cs[j]) < r,
            self.preorder(cs[j]).contains(y),
        ensures
            self.preorder_list(cs, r).contains(y),
        decreases cs.len(),
    {
        let rest = self.preorder_list(cs.drop_last(), r);
        if j == cs.len() - 1 {
            lemma_concat_contains(rest, self.preorder(cs.last()), y);
        } else {
            assert(cs.drop_last()[j] == cs[j]);
            self.lemma_list_superset(cs.drop_last(), r, j, y);
            if self.rank_of(cs.last()) < r {
                lemma_concat_contains(rest, self.preorder(cs.last()), y);
            }
        }
    }

    /// Every node of a subtree's pre-order is live and climbs to its root.
    proof fn lemma_preorder_sound(&self, x: u32, y: u32)
        requires
            self.wf(),
            self.valid(x),
            self.preorder(x).contains(y),
        ensures
            self.valid(y),
            self.reaches(y, x),
        decreases self.rank_of(x),
    {
        self.lemma_wf_ranked();
        let cs = self.children_of(x);
        let lst = self.preorder_list(cs, self.rank_of(x));
        lemma_concat_contains(seq![x], lst, y);
        if y != x {
            assert(lst.contains(y));
            self.lemma_list_member(cs, self.rank_of(x), y);
            let j = choose|j: int| 0 <= j < cs.len() && self.rank_of(cs[j]) < self.rank_of(x) && #[trigger] self.preorder(cs[j]).contains(y);
            assert(self.node_ok(x));
            let c = cs[j];
            assert(self.valid(cs[j]));
            assert(self.valid(c) && self.parent_of(c) == x);
            self.lemma_preorder_sound(c, y);
            self.lemma_reaches_parent(y, c);
        }
    }

    /// A subtree's pre-order is closed under taking children.
    proof fn lemma_preorder_closed(&self, x: u32, p: u32, y: u32)
        requires
            self.wf(),
            self.valid(x),
            self.preorder(x).contains(p),
            self.children_of(p).contains(y),
        ensures
            self.preorder(x).contains(y),
        decreases self.rank_of(x),
    {
        let cs = self.children_of(x);
        let r = self.rank_of(x);
        let lst = self.preorder_list(cs, r);
        lemma_concat_contains(seq![x], lst, p);
        assert(self.node_ok(x));
        if p == x {
            let j = choose|j: int| 0 <= j < cs.len() && cs[j] == y;
            assert(self.valid(cs[j]));
            assert(self.valid(y) && self.parent_of(y) == x);
            assert(self.node_ok(y));
            assert(self.preorder(y) == seq![y] + self.preorder_list(self.children_of(y), self.rank_of(y)));
            lemma_concat_contains(seq![y], self.preorder_list(self.children_of(y), self.rank_of(y)), y);
            assert(seq![y].contains(y)) by { assert(seq![y][0] == y); }
            self.lemma_list_superset(cs, r, j, y);
        } else {
            self.lemma_list_member(cs, r, p);
            let j = choose|j: int| 0 <= j < cs.len() && self.rank_of(cs[j]) < r && #[trigger] self.preorder(cs[j]).contains(p);
            assert(self.valid(cs[j]));
            self.lemma_preorder_closed(cs[j], p, y);
            self.lemma_list_superset(cs, r, j, y);
        }
        lemma_concat_contains(seq![x], lst, y);
    }

    /// Every live node under `x` appears in its pre-order.
    proof fn lemma_preorder_complete(&self, x: u32, y: u32)
        requires
            self.wf(),
            self.valid(x),
            self.valid(y),
            self.reaches(y, x),
        ensures
            self.preorder(x).contains(y),
        decreases self.height_bound() - self.rank_of(y),
    {
        self.lemma_wf_ranked();
        if y == x {
            assert(self.preorder(x) == seq![x] + self.preorder_list(self.children_of(x), self.rank_of(x)));
            lemma_concat_contains(seq![x], self.preorder_list(self.children_of(x), self.rank_of(x)), x);
            assert(seq![x].contains(x)) by { assert(seq![x][0] == x); }
        } else {
            let p = self.parent_of(y);
            assert(self.node_ok(y));
            self.lemma_preorder_complete(x, p);
            self.lemma_preorder_closed(x, p, y);
        }
    }

    /// Two nodes a climb passes through are on one line: one reaches the other.
    proof fn lemma_reaches_line(&self, y: u32, a: u32, b: u32)
        requires
            self.ranked(),
            self.reaches(y, a),
            self.reaches(y, b),
        ensures
            self.reaches(a, b) || self.reaches(b, a),
        decreases self.height_bound() - self.rank_of(y),
    {
        if y != a && y != b {
            self.lemma_reaches_line(self.parent_of(y), a, b);
        }
    }

    /// A subtree's pre-order lists each of its nodes once.
    proof fn lemma_preorder_distinct(&self, x: u32)
        requires
            self.wf(),
            self.valid(x),
        ensures
            self.preorder(x).no_duplicates(),
        decreases self.rank_of(x), 1nat,
    {
        self.lemma_wf_ranked();
        assert(self.node_ok(x));
        let cs = self.children_of(x);
        let r = self.rank_of(x);
        assert forall|k: int| 0 <= k < cs.len() implies #[trigger] self.valid(cs[k]) && self.parent_of(cs[k]) == x by {
            assert(self.valid(cs[k]));
        }
        self.lemma_list_distinct(x, cs);
        let lst = self.preorder_list(cs, r);
        assert forall|y: u32| seq![x].contains(y) implies !lst.contains(y) by {
            assert(y == x);
            if lst.contains(x) {
                self.lemma_list_member(cs, r, x);
                let j = choose|j: int| 0 <= j < cs.len() && self.rank_of(cs[j]) < r && #[trigger] self.preorder(cs[j]).contains(x);
                assert(self.valid(cs[j]));
                self.lemma_preorder_sound(cs[j], x);
                self.lemma_reaches_rank(x, cs[j]);
            }
        }
        assert(seq![x].no_duplicates());
        lemma_concat_no_dup(seq![x], lst);
    }

    proof fn lemma_list_distinct(&self, x: u32, cs: Seq<u32>)
        requires
            self.wf(),
            self.valid(x),
            cs.no_duplicates(),
            forall|k: int| 0 <= k < cs.len() ==> #[trigger] self.valid(cs[k]) && self.parent_of(cs[k]) == x,
        ensures
            self.preorder_list(cs, self.rank_of(x)).no_duplicates(),
        decreases self.rank_of(x), 0nat, cs.len(),
    {
        self.lemma_wf_ranked();
        let r = self.rank_of(x);
        if cs.len() > 0 {
            let d = cs.drop_last();
            let c = cs.last();
            assert(self.valid(cs[cs.len() - 1]));
            assert(self.node_ok(c));
            assert forall|k: int| 0 <= k < d.len() implies #[trigger] self.valid(d[k]) && self.parent_of(d[k]) == x by {
                assert(d[k] == cs[k]);
                assert(self.valid(cs[k]));
            }
            self.lemma_list_distinct(x, d);
            let rest = self.preorder_list(d, r);
            self.lemma_preorder_distinct(c);
            assert forall|y: u32| rest.contains(y) implies !self.preorder(c).contains(y) by {
                if self.preorder(c).contains(y) {
                    self.lemma_list_member(d, r, y);
                    let j = choose|j: int| 0 <= j < d.len() && self.rank_of(d[j]) < r && #[trigger] self.preorder(d[j]).contains(y);
                    let c1 = d[j];
                    assert(self.valid(d[j]));
                    assert(cs[j] == c1);
                    assert(c1 != c);
                    self.lemma_preorder_sound(c1, y);
                    self.lemma_preorder_sound(c, y);
                    self.lemma_reaches_line(y, c1, c);
                    if self.reaches(c1, c) {
                        self.lemma_reaches_rank(x, c);
                    } else {
                        self.lemma_reaches_rank(x, c1);
                    }
                }
            }
            lemma_concat_no_dup(rest, self.preorder(c));
        }
    }
}

proof fn lemma_concat_contains(a: Seq<u32>, b: Seq<u32>, y: u32)
    ensures
        (a + b).contains(y) <==> a.contains(y) || b.contains(y),
{
    let c = a + b;
    if c.contains(y) {
        let k = choose|k: int| 0 <= k < c.len() && c[k] == y;
        if k < a.len() {
            assert(a[k] == y);
        } else {
            assert(b[k - a.len()] == y);
        }
    }
    if a.contains(y) {
        let k = choose|k: int| 0 <= k < a.len() && a[k] == y;
        assert(c[k] == y);
    }
    if b.contains(y) {
        let k = choose|k: int| 0 <= k < b.len() && b[k] == y;
        assert(c[k + a.len()] == y);
    }
}

} // verus!

verus! {

/// The events of `es` whose node is not among `gone`, in order.
pub open spec fn keep_events(es: Seq<Event>, gone: Seq<u32>) -> Seq<Event>
    decreases es.len(),
{
    if es.len() == 0 {
        es
    } else if gone.contains(es.last().node) {
        keep_events(es.drop_last(), gone)
    } else {
        keep_events(es.drop_last(), gone).push(es.last())
    }
}

fn vec_contains(s: &Vec<u32>, v: u32) -> (b: bool)
    ensures
        b == s@.contains(v),
{
    match position(s, v) {
        Some(i) => {
            assert(s@[i as int] == v);
            true
        },
        None => false,
    }
}

impl Tree {
    /// `self` is `old` with the node `id` and everything under it removed:
    /// unparented, their slots freed in pre-order, and their queued events dropped.
    pub open spec fn freed(&self, old: &Self, id: u32) -> bool {
        let gone = old.preorder(id);
        let op = old.parent_of(id);
        &&& self.wf()
        &&& forall|x: u32| #[trigger] self.valid(x) == (old.valid(x) && !gone.contains(x))
        &&& op != 0 ==> self.valid(op) && self.children_of(op) == without(old.children_of(op), id)
            && self.parent_of(op) == old.parent_of(op) && self.tag_of(op) == old.tag_of(op)
            && self.props_of(op) == old.props_of(op)
        &&& forall|x: u32|
            #![trigger self.valid(x)]
            #![trigger self.tag_of(x)]
            #![trigger self.parent_of(x)]
            #![trigger self.children_of(x)]
            #![trigger self.props_of(x)]
            self.valid(x) && x != op ==> self.same_node(old, x)
        &&& self.slots() == old.slots()
        &&& self.free_list() == old.free_list() + gone
        &&& self.pending_events() == keep_events(old.pending_events(), gone)
        &&& self.root_id() == old.root_id()
        &&& self.current_event() == old.current_event()
    }

    /// Append the pre-order of the subtree under `x` to `out`.
    fn collect(&self, x: u32, out: &mut Vec<u32>)
        requires
            self.wf(),
            self.valid(x),
        ensures
            final(out)@ == old(out)@ + self.preorder(x),
        decreases self.rank_of(x),
    {
        let ghost start = out@;
        out.push(x);
        proof {
            assert(self.node_ok(x));
        }
        let cs = &self.kids[(x - 1) as usize];
        let r = Ghost(self.rank_of(x));
        let mut i: usize = 0;
        while i < cs.len()
            invariant
                self.wf(),
                self.valid(x),
                cs@ == self.children_of(x),
                r@ == self.rank_of(x),
                i <= cs@.len(),
                out@ == start + seq![x] + self.preorder_list(cs@.take(i as int), r@),
            decreases cs@.len() - i,
        {
            let c = cs[i];
            proof {
                assert(self.node_ok(x));
                assert(self.valid(cs@[i as int]));
                assert(self.node_ok(c));
                assert(cs@.take(i + 1).drop_last() =~= cs@.take(i as int));
                assert(cs@.take(i + 1).last() == c);
            }
            let ghost before = out@;
            self.collect(c, out);
            proof {
                assert(out@ =~= start + seq![x] + self.preorder_list(cs@.take(i + 1), r@));
            }
            i = i + 1;
        }
        proof {
            assert(cs@.take(i as int) =~= cs@);
            assert(out@ =~= start + self.preorder(x));
        }
    }

    /// Drop `id` and everything under it, unparenting it first. A handle the
    /// caller still holds afterwards is simply dead.
    pub fn free_node(&mut self, id: u32)
        requires
            old(self).wf(),
        ensures
            final(self).wf(),
            old(self).valid(id) ==> final(self).freed(old(self), id),
            !old(self).valid(id) ==> *final(self) == *old(self),
    {
        if !self.is_live(id) {
            return;
        }
        let ghost t0 = *self;
        let mut order: Vec<u32> = Vec::new();
        self.collect(id, &mut order);
        proof {
            assert(order@ =~= t0.preorder(id));
            t0.lemma_preorder_distinct(id);
        }
        self.detach(id);
        let ghost t1 = *self;
        let n = self.live.len();
        let mut j: usize = 0;
        while j < order.len()
            invariant
                t0.wf(),
                t0.valid(id),
                order@ == t0.preorder(id),
                j <= order@.len(),
                n == t1.live@.len(),
                self.live@.len() == n,
                self.tags@ == t1.tags@,
                self.parents@.len() == n,
                self.kids@.len() == n,
                self.props@.len() == n,
                self.rank@ == t1.rank@,
                self.bound == t1.bound,
                self.root == t1.root,
                self.pending@ == t1.pending@,
                self.current == t1.current,
                t1.live@ == t0.live@,
                t1.kids@.len() == n,
                t1.props@.len() == n,
                t1.parents@.len() == n,
                self.free@ == t1.free@ + order@.take(j as int),
                forall|x: u32| 1 <= x <= n ==> #[trigger] self.live@[x - 1] == (t1.live@[x - 1] && !order@.take(j as int).contains(x)),
                forall|x: u32| 1 <= x <= n && !order@.take(j as int).contains(x) ==> {
                    &&& #[trigger] self.parents@[x - 1] == t1.parents@[x - 1]
                    &&& self.kids@[x - 1] == t1.kids@[x - 1]
                    &&& self.props@[x - 1] == t1.props@[x - 1]
                },
            decreases order@.len() - j,
        {
            let y = order[j];
            let ghost prev = *self;
            proof {
                assert(t0.preorder(id).contains(y));
                t0.lemma_preorder_sound(id, y);
                assert(order@.take(j + 1) =~= order@.take(j as int).push(y));
                lemma_concat_contains(order@.take(j as int), seq![y], y);
            }
            let yi = (y - 1) as usize;
            self.live[yi] = false;
            self.kids[yi] = Vec::new();
            self.props[yi] = Vec::new();
            self.parents[yi] = 0;
            self.free.push(y);
            proof {
                assert forall|x: u32| 1 <= x <= n implies #[trigger] self.live@[x - 1] == (t1.live@[x - 1] && !order@.take(j + 1).contains(x)) by {
                    lemma_concat_contains(order@.take(j as int), seq![y], x);
                    assert(order@.take(j + 1) =~= order@.take(j as int) + seq![y]);
                    if x == y {
                        assert(seq![y].contains(y)) by { assert(seq![y][0] == y); }
                    } else {
                        assert(!seq![y].contains(x));
                    }
                }
                assert forall|x: u32| 1 <= x <= n && !order@.take(j + 1).contains(x) implies {
                    &&& #[trigger] self.parents@[x - 1] == t1.parents@[x - 1]
                    &&& self.kids@[x - 1] == t1.kids@[x - 1]
                    &&& self.props@[x - 1] == t1.props@[x - 1]
                } by {
                    assert(order@.take(j + 1) =~= order@.take(j as int) + seq![y]);
                    lemma_concat_contains(order@.take(j as int), seq![y], x);
                    if x == y {
                        assert(seq![y].contains(y)) by { assert(seq![y][0] == y); }
                    }
                    assert(!order@.take(j as int).contains(x));
                    assert(prev.parents@[x - 1] == t1.parents@[x - 1]);
                    assert(x != y);
                }
                assert(self.free@ =~= t1.free@ + order@.take(j + 1));
            }
            j = j + 1;
        }
        proof {
            assert(order@.take(j as int) =~= order@);
        }
        self.drop_events(&order);
        proof {
            self.lemma_free_wf(&t0, &t1, id);
        }
    }

    /// Drop every queued event whose node is among `gone`.
    fn drop_events(&mut self, gone: &Vec<u32>)
        ensures
            final(self).pending@ == keep_events(old(self).pending@, gone@),
            final(self).live@ == old(self).live@,
            final(self).tags@ == old(self).tags@,
            final(self).parents@ == old(self).parents@,
            final(self).kids@ == old(self).kids@,
            final(self).props@ == old(self).props@,
            final(self).rank@ == old(self).rank@,
            final(self).bound == old(self).bound,
            final(self).free@ == old(self).free@,
            final(self).root == old(self).root,
            final(self).current == old(self).current,
    {
        let mut queue: VecDeque<Event> = VecDeque::new();
        std::mem::swap(&mut self.pending, &mut queue);
        let ghost all = queue@;
        let total = queue.len();
        let mut done: usize = 0;
        while queue.len() > 0
            invariant
                total == all.len(),
                done + queue@.len() == total,
                queue@ == all.skip(done as int),
                self.pending@ == keep_events(all.take(done as int), gone@),
                self.live@ == old(self).live@,
                self.tags@ == old(self).tags@,
                self.parents@ == old(self).parents@,
                self.kids@ == old(self).kids@,
                self.props@ == old(self).props@,
                self.rank@ == old(self).rank@,
                self.bound == old(self).bound,
                self.free@ == old(self).free@,
                self.root == old(self).root,
                self.current == old(self).current,
                all == old(self).pending@,
            decreases queue@.len(),
        {
            let e = queue.pop_front().unwrap();
            proof {
                assert(all.take(done + 1).drop_last() =~= all.take(done as int));
                assert(all[done as int] == e);
            }
            if !vec_contains(gone, e.node) {
                self.pending.push_back(e);
            }
            proof {
                assert(queue@ =~= all.skip(done + 1));
            }
            done = done + 1;
        }
        proof {
            assert(all.take(done as int) =~= all);
        }
    }

    proof fn lemma_free_wf(&self, t0: &Self, t1: &Self, id: u32)
        requires
            t0.wf(),
            t0.valid(id),
            t1.wf(),
            t1.live@ == t0.live@,
            t1.tags@ == t0.tags@,
            t1.props@ == t0.props@,
            t1.rank@ == t0.rank@,
            t1.bound == t0.bound,
            t1.free@ == t0.free@,
            t1.root == t0.root,
            t1.pending@ == t0.pending@,
            t1.current == t0.current,
            t1.parents@ == t0.parents@.update(id - 1, 0u32),
            t1.kids@.len() == t0.kids@.len(),
            forall|x: u32| 1 <= x <= t0.kids@.len() && x != t0.parent_of(id) ==> #[trigger] t1.kids@[x - 1] == t0.kids@[x - 1],
            t0.parent_of(id) != 0 ==> t1.children_of(t0.parent_of(id)) == without(t0.children_of(t0.parent_of(id)), id),
            self.live@.len() == t1.live@.len(),
            self.tags@ == t1.tags@,
            self.parents@.len() == t1.live@.len(),
            self.kids@.len() == t1.live@.len(),
            self.props@.len() == t1.live@.len(),
            self.rank@ == t1.rank@,
            self.bound == t1.bound,
            self.root == t1.root,
            self.current == t1.current,
            self.pending@ == keep_events(t1.pending@, t0.preorder(id)),
            self.free@ == t1.free@ + t0.preorder(id),
            forall|x: u32| 1 <= x <= t1.live@.len() ==> #[trigger] self.live@[x - 1] == (t1.live@[x - 1] && !t0.preorder(id).contains(x)),
            forall|x: u32| 1 <= x <= t1.live@.len() && !t0.preorder(id).contains(x) ==> {
                &&& #[trigger] self.parents@[x - 1] == t1.parents@[x - 1]
                &&& self.kids@[x - 1] == t1.kids@[x - 1]
                &&& self.props@[x - 1] == t1.props@[x - 1]
            },
        ensures
            self.wf(),
            self.freed(t0, id),
    {
        let gone = t0.preorder(id);
        let op = t0.parent_of(id);
        t0.lemma_wf_ranked();
        t0.lemma_preorder_distinct(id);
        assert(t0.node_ok(id));
        // A live node outside the subtree is not under `id`.
        assert forall|x: u32| #[trigger] t0.valid(x) && !gone.contains(x) implies !t0.reaches(x, id) by {
            if t0.reaches(x, id) {
                t0.lemma_preorder_complete(id, x);
            }
        }
        assert forall|x: u32| #[trigger] self.valid(x) implies self.node_ok(x) by {
            assert(t1.valid(x));
            assert(t0.valid(x));
            assert(!gone.contains(x));
            assert(t1.node_ok(x));
            assert(t0.node_ok(x));
            assert(self.parents@[x - 1] == t1.parents@[x - 1]);
            assert(self.kids@[x - 1] == t1.kids@[x - 1]);
            let cs = self.children_of(x);
            assert(cs == t1.children_of(x));
            assert forall|k: int| 0 <= k < cs.len() implies #[trigger] self.valid(cs[k]) && self.parent_of(cs[k]) == x by {
                let c = cs[k];
                assert(t1.valid(t1.children_of(x)[k]));
                assert(t1.valid(c) && t1.parent_of(c) == x);
                assert(c != id);
                assert(t0.parent_of(c) == x);
                assert(t0.valid(c));
                if gone.contains(c) {
                    t0.lemma_preorder_sound(id, c);
                    assert(t0.reaches(x, id));
                }
                assert(self.live@[c - 1]);
                assert(self.parents@[c - 1] == t1.parents@[c - 1]);
            }
            let q = self.parent_of(x);
            if q != 0 {
                assert(t1.parent_of(x) == q);
                assert(x != id);
                assert(t0.parent_of(x) == q);
                assert(t1.valid(q));
                if gone.contains(q) {
                    t0.lemma_preorder_sound(id, q);
                    assert(t0.reaches(x, id));
                }
                assert(self.live@[q - 1]);
                assert(self.parents@[q - 1] == t1.parents@[q - 1]);
                assert(self.kids@[q - 1] == t1.kids@[q - 1]);
            }
        }
        assert forall|y: u32| t1.free@.contains(y) implies !gone.contains(y) by {
            let f = choose|f: int| 0 <= f < t1.free@.len() && t1.free@[f] == y;
            assert(t1.dead_slot(t1.free@[f]));
            if gone.contains(y) {
                t0.lemma_preorder_sound(id, y);
            }
        }
        lemma_concat_no_dup(t1.free@, gone);
        assert forall|f: int| 0 <= f < self.free@.len() implies #[trigger] self.dead_slot(self.free@[f]) by {
            let y = self.free@[f];
            if f < t1.free@.len() {
                assert(t1.free@[f] == y);
                assert(t1.dead_slot(t1.free@[f]));
            } else {
                assert(gone[f - t1.free@.len()] == y);
                assert(gone.contains(y));
                t0.lemma_preorder_sound(id, y);
            }
        }
        assert forall|x: u32| #[trigger] self.dead_slot(x) implies self.free@.contains(x) by {
            if t1.live@[x - 1] {
                assert(gone.contains(x));
            } else {
                assert(t1.dead_slot(x));
            }
            assert((t1.free@ + gone).contains(x));
        }
        assert(self.wf());
        if op != 0 {
            assert(t0.valid(op));
            assert(t0.node_ok(op));
            if gone.contains(op) {
                t0.lemma_preorder_sound(id, op);
                t0.lemma_reaches_rank(op, id);
            }
            assert(self.live@[op - 1]);
            assert(self.parents@[op - 1] == t1.parents@[op - 1]);
            assert(self.kids@[op - 1] == t1.kids@[op - 1]);
            assert(self.props@[op - 1] == t1.props@[op - 1]);
        }
        assert forall|x: u32| #[trigger] self.valid(x) && x != op implies self.same_node(t0, x) by {
            assert(t1.valid(x));
            assert(!gone.contains(x));
            assert(self.kids@[x - 1] == t1.kids@[x - 1]);
            assert(self.parents@[x - 1] == t1.parents@[x - 1]);
            assert(self.props@[x - 1] == t1.props@[x - 1]);
            if x == id {
                assert(gone.contains(id)) by {
                    t0.lemma_preorder_complete(id, id);
                }
            }
        }
        assert forall|x: u32| #[trigger] self.valid(x) == (t0.valid(x) && !gone.contains(x)) by {}
    }
}

} // verus!

verus! {

impl Tree {
    /// Free `child` and its subtree, but only when it is a child of `parent`
    /// (`parent` 0: a loose node).
    pub fn remove(&mut self, parent: u32, child: u32)
        requires
            old(self).wf(),
        ensures
            final(self).wf(),
            (old(self).valid(child) && old(self).parent_of(child) == parent) ==> final(self).freed(old(self), child),
            !(old(self).valid(child) && old(self).parent_of(child) == parent) ==> *final(self) == *old(self),
    {
        if !self.is_live(child) || self.parents[(child - 1) as usize] != parent {
            return;
        }
        self.free_node(child);
    }

    /// Put `new` where `gone` sits among `parent`'s children and free `gone`.
    pub fn replace(&mut self, parent: u32, gone: u32, new: u32) -> (ok: bool)
        requires
            old(self).wf(),
        ensures
            final(self).wf(),
            ok == (old(self).valid(parent) && old(self).children_of(parent).contains(gone)
                && old(self).can_insert(parent, new)),
            ok ==> exists|mid: Tree| {
                &&& #[trigger] mid.inserted(old(self), parent, new, first_index(old(self).children_of(parent), gone))
                &&& if mid.valid(gone) && mid.parent_of(gone) == parent {
                    final(self).freed(&mid, gone)
                } else {
                    *final(self) == mid
                }
            },
            !ok ==> *final(self) == *old(self),
    {
        if !self.is_live(parent) {
            return false;
        }
        let index = match position(&self.kids[(parent - 1) as usize], gone) {
            Some(i) => i,
            None => {
                return false;
            },
        };
        if !self.insert_at(parent, new, index) {
            return false;
        }
        let ghost mid = *self;
        self.remove(parent, gone);
        proof {
            assert(mid.inserted(old(self), parent, new, first_index(old(self).children_of(parent), gone)));
        }
        true
    }
}

} // verus!

verus! {

/// What `free_node` removes is exactly the subtree: the live nodes whose
/// parent chain reaches `id`.
pub proof fn lemma_freed_is_subtree(t: &Tree, id: u32, y: u32)
    requires
        t.wf(),
        t.valid(id),
    ensures
        t.preorder(id).contains(y) <==> (t.valid(y) && t.reaches(y, id)),
        t.preorder(id).no_duplicates(),
{
    if t.preorder(id).contains(y) {
        t.lemma_preorder_sound(id, y);
    }
    if t.valid(y) && t.reaches(y, id) {
        t.lemma_preorder_complete(id, y);
    }
    t.lemma_preorder_distinct(id);
}

/// A node sits in one children list only, once, and it is its parent's.
pub proof fn lemma_single_parent(t: &Tree, p: u32, c: u32)
    requires
        t.wf(),
        t.valid(p),
        t.children_of(p).contains(c),
    ensures
        t.valid(c),
        t.parent_of(c) == p,
        t.children_of(p).no_duplicates(),
{
    assert(t.node_ok(p));
    let k = choose|k: int| 0 <= k < t.children_of(p).len() && t.children_of(p)[k] == c;
    assert(t.valid(t.children_of(p)[k]));
}

/// The links never form a loop: no node lies under itself.
pub proof fn lemma_no_cycles(t: &Tree, x: u32)
    requires
        t.wf(),
        t.valid(x),
        t.parent_of(x) != 0,
    ensures
        !t.reaches(t.parent_of(x), x),
{
    t.lemma_wf_ranked();
    assert(t.node_ok(x));
    let p = t.parent_of(x);
    if t.reaches(p, x) {
        t.lemma_reaches_rank(p, x);
    }
}

/// Events kept after a removal never name a removed node, and every event
/// for a surviving node is kept.
pub proof fn lemma_keep_events(es: Seq<Event>, gone: Seq<u32>, e: Event)
    ensures
        keep_events(es, gone).contains(e) <==> (es.contains(e) && !gone.contains(e.node)),
    decreases es.len(),
{
    if es.len() > 0 {
        lemma_keep_events(es.drop_last(), gone, e);
        let k = keep_events(es.drop_last(), gone);
        if keep_events(es, gone).contains(e) {
            if !gone.contains(es.last().node) {
                let i = choose|i: int| 0 <= i < k.push(es.last()).len() && k.push(es.last())[i] == e;
                if i < k.len() {
                    assert(k[i] == e);
                    assert(k.contains(e));
                }
            }
            if k.contains(e) {
                let i = choose|i: int| 0 <= i < es.drop_last().len() && es.drop_last()[i] == e;
                assert(es[i] == e);
            } else {
                assert(es[es.len() - 1] == e);
            }
        }
        if es.contains(e) && !gone.contains(e.node) {
            let i = choose|i: int| 0 <= i < es.len() && es[i] == e;
            if i < es.len() - 1 {
                assert(es.drop_last()[i] == e);
                assert(k.contains(e));
                let j = choose|j: int| 0 <= j < k.len() && k[j] == e;
                if !gone.contains(es.last().node) {
                    assert(k.push(es.last())[j] == e);
                }
            } else {
                assert(k.push(es.last())[k.len() as int] == e);
            }
        }
    }
}

} // verus!

verus! {

impl Default for Tree {
    /// A fresh arena holding only its `window` root.
    fn default() -> (t: Tree)
        ensures
            t.wf(),
            t.slots() == 1,
            t.root_id() == 1,
            t.valid(1),
            t.tag_of(1) == Tag::Window,
            t.parent_of(1) == 0,
            t.children_of(1) == Seq::<u32>::empty(),
            t.free_list() == Seq::<u32>::empty(),
            t.pending_events() == Seq::<Event>::empty(),
            t.current_event() is None,
    {
        Tree::new()
    }
}

/// The IEEE-754 bits of `1.0` and of `0.0`, the payload of a yes/no event.
pub open spec fn flag_bits(on: bool) -> u64 {
    if on { 0x3FF0_0000_0000_0000u64 } else { 0u64 }
}

impl Tree {
    /// A check button was clicked to `now`: the new state is written back to
    /// `:active`, so a caller that ignores the event still tracks the click,
    /// and a `toggled` event carries `1.0` or `0.0`.
    pub fn record_toggle(&mut self, id: u32, now: bool)
        requires
            old(self).wf(),
        ensures
            final(self).wf(),
            old(self).valid(id) ==> prop_lookup(final(self).props_of(id), "active"@) == Some(Value::Bool(now)),
            final(self).pending_events().drop_last() == old(self).pending_events(),
            final(self).pending_events().last().node == id,
            final(self).pending_events().last().name@ == "toggled"@,
            final(self).pending_events().last().text@ == Seq::<char>::empty(),
            final(self).pending_events().last().num == flag_bits(now),
    {
        self.set(id, "active", Value::Bool(now));
        let bits: u64 = if now { 0x3FF0_0000_0000_0000u64 } else { 0u64 };
        self.emit(id, "toggled", String::new(), bits);
    }

    /// A text field was edited to `text`: where it differs from `:text`, the
    /// new text is written back and a `change` event carries it. Returns
    /// whether it differed.
    pub fn record_edit(&mut self, id: u32, text: String) -> (changed: bool)
        requires
            old(self).wf(),
        ensures
            final(self).wf(),
            changed == (text@ != text_of(
                match prop_lookup(old(self).props_of(id), "text"@) {
                    Some(v) => if old(self).valid(id) { Some(&v) } else { None },
                    None => None,
                },
            )),
            !changed ==> *final(self) == *old(self),
            changed && old(self).valid(id) ==> (prop_lookup(final(self).props_of(id), "text"@) matches Some(
                Value::Str(s),
            ) && s@ == text@),
            changed ==> final(self).pending_events().drop_last() == old(self).pending_events(),
            changed ==> final(self).pending_events().last().node == id,
            changed ==> final(self).pending_events().last().name@ == "change"@,
            changed ==> final(self).pending_events().last().text@ == text@,
    {
        let current = prop_str(self.get(id, "text"));
        let same = crate::text::str_eq(current, text.as_str());
        if same {
            return false;
        }
        let copy = string_from_chars(&chars_of(text.as_str()));
        self.set(id, "text", Value::Str(copy));
        self.emit(id, "change", text, 0);
        true
    }

    /// A scroll area settled at or away from its end: a `change` event says
    /// `end` with `1.0` or `away` with `0.0`.
    pub fn record_scroll_end(&mut self, id: u32, at_end: bool)
        requires
            old(self).wf(),
        ensures
            final(self).wf(),
            final(self).pending_events().drop_last() == old(self).pending_events(),
            final(self).pending_events().last().node == id,
            final(self).pending_events().last().name@ == "change"@,
            final(self).pending_events().last().text@ == (if at_end { "end"@ } else { "away"@ }),
            final(self).pending_events().last().num == flag_bits(at_end),
    {
        let text = if at_end { String::from_str("end") } else { String::from_str("away") };
        let bits: u64 = if at_end { 0x3FF0_0000_0000_0000u64 } else { 0u64 };
        self.emit(id, "change", text, bits);
    }
}


impl Tree {
    /// `y` asks to be scrolled into view: its `:scroll-here` is `true`.
    pub open spec fn asks_scroll(&self, y: u32) -> bool {
        prop_lookup(self.props_of(y), "scroll-here"@) == Some(Value::Bool(true))
    }

    /// Whether `id` or anything under it asks to be scrolled into view this
    /// frame (a scroll area does not stick to its bottom while it does).
    pub fn wants_scroll_to(&self, id: u32) -> (b: bool)
        requires
            self.wf(),
        ensures
            b == (self.valid(id) && exists|y: u32| #[trigger] self.reaches(y, id) && self.valid(y) && self.asks_scroll(y)),
    {
        if !self.is_live(id) {
            return false;
        }
        let mut nodes: Vec<u32> = Vec::new();
        self.collect(id, &mut nodes);
        assert(nodes@ =~= self.preorder(id));
        let mut i: usize = 0;
        while i < nodes.len()
            invariant
                self.wf(),
                self.valid(id),
                nodes@ == self.preorder(id),
                i <= nodes@.len(),
                forall|k: int| 0 <= k < i ==> !self.asks_scroll(#[trigger] nodes@[k]),
            decreases nodes@.len() - i,
        {
            let y = nodes[i];
            proof {
                assert(self.preorder(id).contains(y));
                self.lemma_preorder_sound(id, y);
            }
            let v = self.get(y, "scroll-here");
            let hit = match v {
                Some(Value::Bool(true)) => true,
                _ => false,
            };
            if hit {
                return true;
            }
            i = i + 1;
        }
        proof {
            assert forall|y: u32| #[trigger] self.reaches(y, id) && self.valid(y) implies !self.asks_scroll(y) by {
                self.lemma_preorder_complete(id, y);
                let k = choose|k: int| 0 <= k < nodes@.len() && nodes@[k] == y;
                assert(!self.asks_scroll(nodes@[k]));
            }
        }
        false
    }
}

} // verus!
