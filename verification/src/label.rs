//! Display labels: a registry that interns label texts and a stable colour
//! for each of them.

use vstd::prelude::*;
use crate::text::same_text;

verus! {

/// The four colours that labels cycle through.
#[derive(Debug, Clone, Copy, PartialEq, Eq, Structural)]
pub enum LabelColor {
    Purple,
    Yellow,
    Cyan,
    Green,
}

/// A handle for a text registered in a [`LabelCache`]: the position at which
/// the text was first inserted.
#[derive(Debug, PartialEq, Eq, Clone, Copy, Structural, PartialOrd, Ord)]
pub struct Label(usize);

impl View for Label {
    type V = nat;

    closed spec fn view(&self) -> nat {
        self.0 as nat
    }
}

impl Label {
    /// The position of the label's text in the registry that issued it.
    pub fn index(&self) -> (i: usize)
        ensures
            i as nat == self@,
    {
        self.0
    }
}

/// The colour of the label at position `idx`: the four colours in turn.
pub open spec fn color_of(idx: nat) -> LabelColor {
    if idx % 4 == 0 {
        LabelColor::Purple
    } else if idx % 4 == 1 {
        LabelColor::Yellow
    } else if idx % 4 == 2 {
        LabelColor::Cyan
    } else {
        LabelColor::Green
    }
}

/// The two digits that select `color` as a foreground colour in an SGR
/// escape sequence.
pub open spec fn foreground_code(color: LabelColor) -> Seq<char> {
    match color {
        LabelColor::Purple => seq!['3', '5'],
        LabelColor::Yellow => seq!['3', '3'],
        LabelColor::Cyan => seq!['3', '6'],
        LabelColor::Green => seq!['3', '2'],
    }
}

/// `text` between the escape sequence that switches the foreground to
/// `color` and the one that resets all styles.
pub open spec fn painted(color: LabelColor, text: Seq<char>) -> Seq<char> {
    seq!['\u{1b}', '['] + foreground_code(color) + seq!['m'] + text + seq!['\u{1b}', '[', '0', 'm']
}

/// True when no text occurs twice in `texts`.
pub open spec fn distinct(texts: Seq<Seq<char>>) -> bool {
    forall|i: int, j: int| 0 <= i < j < texts.len() ==> texts[i] != texts[j]
}

/// The colour of the label at position `idx`.
pub fn idx_to_color(idx: usize) -> (color: LabelColor)
    ensures
        color == color_of(idx as nat),
{
    let r: usize = idx % 4;
    if r == 0 {
        LabelColor::Purple
    } else if r == 1 {
        LabelColor::Yellow
    } else if r == 2 {
        LabelColor::Cyan
    } else {
        LabelColor::Green
    }
}

/// Calls `ansi_term::Style::new().fg(..).paint(..)` and renders the result.
/// A style with only a foreground colour writes `ESC [ <code> m` before the
/// text and the reset sequence `ESC [ 0 m` after it; the contract states
/// exactly that for the four colours used here.
#[verifier::external_body]
fn paint(color: LabelColor, text: &str) -> (out: String)
    ensures
        out@ == painted(color, text@),
{
    let fg = match color {
        LabelColor::Purple => ansi_term::Color::Purple,
        LabelColor::Yellow => ansi_term::Color::Yellow,
        LabelColor::Cyan => ansi_term::Color::Cyan,
        LabelColor::Green => ansi_term::Color::Green,
    };
    ansi_term::Style::new().fg(fg).paint(text).to_string()
}

/// The registry of label texts, in order of first insertion.
pub struct LabelCache(Vec<String>);

impl View for LabelCache {
    type V = Seq<Seq<char>>;

    closed spec fn view(&self) -> Seq<Seq<char>> {
        Seq::new(self.0@.len(), |i: int| self.0@[i]@)
    }
}

impl LabelCache {
    /// No text is registered twice.
    pub open spec fn wf(&self) -> bool {
        distinct(self@)
    }

    /// True when `label` was issued for a text of this registry.
    pub open spec fn knows(&self, label: Label) -> bool {
        label@ < self@.len()
    }

    /// The registry without any text.
    pub fn new() -> (cache: LabelCache)
        ensures
            cache@ == Seq::<Seq<char>>::empty(),
            cache.wf(),
    {
        LabelCache(Vec::new())
    }

    /// The number of registered texts.
    pub fn len(&self) -> (n: usize)
        ensures
            n == self@.len(),
    {
        self.0.len()
    }

    /// Registers `label` unless it is registered already, and returns its
    /// handle: the position of the text in the registry.
    pub fn insert(&mut self, label: &str) -> (handle: Label)
        requires
            old(self).wf(),
        ensures
            final(self).wf(),
            final(self).knows(handle),
            final(self)@[handle@ as int] == label@,
            old(self)@.contains(label@) ==> final(self)@ == old(self)@,
            !old(self)@.contains(label@) ==> final(self)@ == old(self)@.push(label@),
            forall|i: int| 0 <= i < final(self)@.len() && final(self)@[i] == label@ ==> handle@ == i,
    {
        let mut i: usize = 0;
        while i < self.0.len()
            invariant
                i <= self.0@.len(),
                *self == *old(self),
                self.wf(),
                forall|k: int| 0 <= k < i ==> self@[k] != label@,
            decreases self.0@.len() - i,
        {
            if same_text(self.0[i].as_str(), label) {
                assert(self@[i as int] == label@);
                return Label(i);
            }
            i += 1;
        }
        self.0.push(label.to_owned());
        assert(self@ =~= old(self)@.push(label@));
        Label(i)
    }

    /// The text that `label` stands for.
    pub fn text(&self, label: Label) -> (text: &str)
        requires
            self.knows(label),
        ensures
            text@ == self@[label@ as int],
    {
        self.0[label.0].as_str()
    }

    /// The text of `label` in its colour, ready for a terminal.
    pub fn render(&self, label: Label) -> (out: String)
        requires
            self.knows(label),
        ensures
            out@ == painted(color_of(label@), self@[label@ as int]),
    {
        paint(idx_to_color(label.0), self.0[label.0].as_str())
    }
}

impl Default for LabelCache {
    fn default() -> (cache: LabelCache)
        ensures
            cache@ == Seq::<Seq<char>>::empty(),
            cache.wf(),
    {
        LabelCache::new()
    }
}

} // verus!
