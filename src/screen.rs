use vstd::prelude::*;
use crate::encode::{arrows_spec, assign_key_colors, key_colors_spec, spawn_bigram_arrows, Arrow, Shade};
use crate::frequency::{BigramTable, UnigramTable};
use crate::layout::{Layout, NotFound};

verus! {

/// What is on screen: the active layout, if one was chosen, the colour of each
/// slot and the arrows. A layout switch replaces all of it.
pub struct Screen {
    layout: Option<Layout>,
    key_colors: Vec<Shade>,
    arrows: Vec<Arrow>,
}

/// `v` shows the layout of glyphs `g` with the colours and arrows that the tables
/// give it.
pub open spec fn shows(v: &Screen, g: Seq<char>, uni: &UnigramTable, bi: &BigramTable) -> bool {
    &&& v.active() == Some(g)
    &&& v.colors() == key_colors_spec(g, uni.records(), uni.max())
    &&& arrows_spec(g, bi.records(), bi.max(), bi.records().len() as int) == Ok::<
        Seq<Arrow>,
        NotFound,
    >(v.arrows())
}

impl Screen {
    /// The active layout, if any, is a well-formed one.
    pub closed spec fn wf(&self) -> bool {
        match self.layout {
            Some(l) => l.wf(),
            None => true,
        }
    }

    /// The glyphs of the active layout, if any.
    pub closed spec fn active(&self) -> Option<Seq<char>> {
        match self.layout {
            Some(l) => Some(l.glyphs()),
            None => None,
        }
    }

    pub closed spec fn colors(&self) -> Seq<Shade> {
        self.key_colors@
    }

    pub closed spec fn arrows(&self) -> Seq<Arrow> {
        self.arrows@
    }

    /// No layout chosen yet: blank keys and no arrows.
    pub fn new() -> (r: Self)
        ensures
            r.wf(),
            r.active() is None,
            r.colors().len() == 0,
            r.arrows().len() == 0,
    {
        Screen { layout: None, key_colors: Vec::new(), arrows: Vec::new() }
    }

    /// The colour of each slot, slot by slot; empty before a layout is chosen.
    pub fn key_colors(&self) -> (r: &Vec<Shade>)
        ensures
            r@ == self.colors(),
    {
        &self.key_colors
    }

    /// The arrows on screen.
    pub fn arrow_list(&self) -> (r: &Vec<Arrow>)
        ensures
            r@ == self.arrows(),
    {
        &self.arrows
    }

    /// The active layout, if any.
    pub fn layout(&self) -> (r: Option<Layout>)
        requires
            self.wf(),
        ensures
            match r {
                Some(l) => l.wf() && self.active() == Some(l.glyphs()),
                None => self.active() is None,
            },
    {
        self.layout
    }

    /// Switches to `layout`: recomputes every key colour and the whole arrow set.
    /// Fails, leaving the view as it was, when a drawn bigram holds a glyph that
    /// the layout lacks.
    pub fn on_layout_selected(&mut self, layout: Layout, uni: &UnigramTable, bi: &BigramTable) -> (r:
        Result<(), NotFound>)
        requires
            old(self).wf(),
            layout.wf(),
            uni.wf(),
            bi.wf(),
        ensures
            final(self).wf(),
            r is Ok <==> arrows_spec(layout.glyphs(), bi.records(), bi.max(), bi.records().len() as int) is Ok,
            r is Ok ==> shows(final(self), layout.glyphs(), uni, bi),
            r is Err ==> *final(self) == *old(self) && r->Err_0 == arrows_spec(
                layout.glyphs(),
                bi.records(),
                bi.max(),
                bi.records().len() as int,
            )->Err_0,
    {
        let arrows = match spawn_bigram_arrows(&layout, bi) {
            Ok(a) => a,
            Err(e) => {
                return Err(e);
            },
        };
        let key_colors = assign_key_colors(&layout, uni);
        self.layout = Some(layout);
        self.key_colors = key_colors;
        self.arrows = arrows;
        Ok(())
    }

    /// One frame's mailbox: of the selection commands that arrived since the last
    /// frame, only the latest counts; a command other than 1 to 4 changes nothing.
    pub fn tick(&mut self, selections: &Vec<u32>, uni: &UnigramTable, bi: &BigramTable) -> (r:
        Result<(), NotFound>)
        requires
            old(self).wf(),
            uni.wf(),
            bi.wf(),
        ensures
            final(self).wf(),
            ({
                let last = selections@.last();
                if selections@.len() == 0 || !(1 <= last <= 4) {
                    r is Ok && *final(self) == *old(self)
                } else {
                    let g = Layout::selection_glyphs(last);
                    &&& r is Ok <==> arrows_spec(g, bi.records(), bi.max(), bi.records().len() as int) is Ok
                    &&& r is Ok ==> shows(final(self), g, uni, bi)
                    &&& r is Err ==> *final(self) == *old(self)
                }
            }),
    {
        if selections.len() == 0 {
            return Ok(());
        }
        match Layout::from_selection(selections[selections.len() - 1]) {
            Some(layout) => self.on_layout_selected(layout, uni, bi),
            None => Ok(()),
        }
    }
}

/// Switching to a layout, away to another and back again shows what the first
/// switch showed: the view is a function of the layout and the tables alone.
pub proof fn law_switch_back(
    first: &Screen,
    other: &Screen,
    back: &Screen,
    g: Seq<char>,
    h: Seq<char>,
    uni: &UnigramTable,
    bi: &BigramTable,
)
    requires
        shows(first, g, uni, bi),
        shows(other, h, uni, bi),
        shows(back, g, uni, bi),
    ensures
        back.active() == first.active(),
        back.colors() == first.colors(),
        back.arrows() == first.arrows(),
{
}

} // verus!
