//! The palette of a color-mapped image: a table of fixed-width entries,
//! found by index.

use vstd::prelude::*;
use crate::error::Error;

verus! {

/// A palette: `entry_count` entries of `bytes_per_entry` bytes each, laid
/// end to end in `pixels`. The entry at position 0 of the table answers to
/// the index `first_index`.
#[derive(Debug)]
pub struct ColorMap {
    pub first_index: u16,
    pub entry_count: u16,
    pub bytes_per_entry: u8,
    pub pixels: Vec<u8>,
}

/// A palette as a mathematical value.
pub struct ColorMapView {
    pub first_index: u16,
    pub entry_count: u16,
    pub bytes_per_entry: u8,
    pub pixels: Seq<u8>,
}

impl View for ColorMap {
    type V = ColorMapView;

    open spec fn view(&self) -> ColorMapView {
        ColorMapView {
            first_index: self.first_index,
            entry_count: self.entry_count,
            bytes_per_entry: self.bytes_per_entry,
            pixels: self.pixels@,
        }
    }
}

impl ColorMapView {
    /// The table holds exactly the entries it announces.
    pub open spec fn wf(self) -> bool {
        self.pixels.len() == self.entry_count * self.bytes_per_entry
    }

    /// Position in the table of the entry that `index` asks for: the
    /// distance from `first_index` up to `index`, counted in 16 bits, so
    /// that an index below `first_index` lands far beyond any table.
    pub open spec fn spec_effective_index(self, index: u16) -> int {
        if index >= self.first_index {
            index - self.first_index
        } else {
            index - self.first_index + 0x1_0000
        }
    }

    /// Whether `index` names an entry that the table holds.
    pub open spec fn spec_has_color(self, index: u16) -> bool {
        &&& self.spec_effective_index(index) < self.entry_count
        &&& (self.spec_effective_index(index) + 1) * self.bytes_per_entry <= self.pixels.len()
    }

    /// The bytes of the entry that `index` names.
    pub open spec fn spec_color(self, index: u16) -> Seq<u8>
        recommends
            self.spec_has_color(index),
    {
        self.pixels.subrange(
            self.spec_effective_index(index) * self.bytes_per_entry,
            (self.spec_effective_index(index) + 1) * self.bytes_per_entry,
        )
    }
}

/// The bounds of a palette. The index one past the last, `first_index +
/// entry_count`, names no entry. In a palette that holds at least one entry
/// and whose table is complete, the last index, `first_index + entry_count -
/// 1`, names one. Both sums are taken in 16 bits, as indices are.
pub proof fn lemma_color_map_bounds(map: ColorMapView, index: u16)
    ensures
        index == (map.first_index + map.entry_count) % 0x1_0000 ==> !map.spec_has_color(index),
        map.wf() && map.entry_count > 0 && index == (map.first_index + map.entry_count - 1)
            % 0x1_0000 ==> map.spec_has_color(index),
{
}

impl ColorMap {
    /// Looks `index` up and writes the entry found over the first
    /// `bytes_per_entry` bytes of `buf`; the rest of `buf` stays. Fails with
    /// `ColorMapIndexFailed`, leaving `buf` as it was, exactly when `index`
    /// names no entry of the table.
    pub fn try_get_color(&self, buf: &mut [u8], index: u16) -> (res: Result<(), Error>)
        requires
            old(buf)@.len() >= self.bytes_per_entry,
        ensures
            final(buf)@.len() == old(buf)@.len(),
            res is Ok <==> self@.spec_has_color(index),
            res is Ok ==> final(buf)@ == self@.spec_color(index) + old(buf)@.skip(
                self.bytes_per_entry as int,
            ),
            res matches Err(e) ==> e == Error::ColorMapIndexFailed && final(buf)@ == old(buf)@,
    {
        let effective: u16 = index.wrapping_sub(self.first_index);
        if effective >= self.entry_count {
            return Err(Error::ColorMapIndexFailed);
        }
        let width: usize = self.bytes_per_entry as usize;
        assert(effective * width <= 0xffff * 0xff && (effective + 1) * width == effective * width
            + width) by (nonlinear_arith)
            requires
                effective <= 0xffff,
                width <= 0xff,
        ;
        let start: usize = effective as usize * width;
        if self.pixels.len() < width || start > self.pixels.len() - width {
            return Err(Error::ColorMapIndexFailed);
        }
        let mut k: usize = 0;
        while k < width
            invariant
                k <= width,
                width == self.bytes_per_entry,
                start + width <= self.pixels.len(),
                buf@.len() == old(buf)@.len(),
                buf@.len() >= width,
                forall|j: int| 0 <= j < k ==> buf@[j] == self.pixels@[start + j],
                forall|j: int| k <= j < buf@.len() ==> buf@[j] == old(buf)@[j],
            decreases width - k,
        {
            buf[k] = self.pixels[start + k];
            k += 1;
        }
        Ok(())
    }
}

} // verus!
