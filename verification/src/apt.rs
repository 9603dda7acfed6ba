//! The NOAA APT image being received: a bounded stack of grayscale rows
//! (channel A beside channel B), exported as a small raster.

use vstd::prelude::*;
use std::collections::VecDeque;
use bytes::Bytes;
use crate::beast::{bytes_content, bytes_from_vec};
use crate::wav::le32;

verus! {

/// Pixels per channel per line.
pub const IMAGE_LEN: usize = 909;

/// Combined width: channel A and channel B side by side.
pub const IMAGE_WIDTH: usize = 1818;

/// The rows kept after one more row: the newest `max_rows` of them.
pub open spec fn kept_rows(rows: Seq<Seq<u8>>, row: Seq<u8>, max_rows: nat) -> Seq<Seq<u8>> {
    let r = rows.push(row);
    if r.len() > max_rows {
        r.subrange(r.len() - max_rows, r.len() as int)
    } else {
        r
    }
}

/// The rows one after another.
pub open spec fn flatten(rows: Seq<Seq<u8>>) -> Seq<u8>
    decreases rows.len(),
{
    if rows.len() == 0 {
        Seq::empty()
    } else {
        flatten(rows.drop_last()) + rows.last()
    }
}

/// `[u32 width LE][u32 height LE][rows, row-major]`.
pub open spec fn raster(rows: Seq<Seq<u8>>) -> Seq<u8> {
    le32(IMAGE_WIDTH as u32) + le32(rows.len() as u32) + flatten(rows)
}

pub struct ImageView {
    pub rows: Seq<Seq<u8>>,
    pub max_rows: nat,
    pub total_lines: nat,
}

/// A growing two-channel grayscale image, newest rows last.
pub struct Image {
    rows: VecDeque<Vec<u8>>,
    max_rows: usize,
    total_lines: u64,
}

impl View for Image {
    type V = ImageView;

    closed spec fn view(&self) -> ImageView {
        ImageView {
            rows: self.rows@.map_values(|r: Vec<u8>| r@),
            max_rows: self.max_rows as nat,
            total_lines: self.total_lines as nat,
        }
    }
}

/// Height, width and line count of the image.
pub struct ImageStatus {
    pub width: usize,
    pub height: usize,
    pub lines: u64,
}

impl Image {
    /// Every row is `IMAGE_WIDTH` pixels and there are at most `max_rows`
    /// (at least 1) of them.
    pub closed spec fn wf(&self) -> bool {
        &&& self.max_rows >= 1
        &&& self.rows@.len() <= self.max_rows
        &&& forall|i: int| 0 <= i < self.rows@.len() ==> #[trigger] self.rows@[i]@.len() == IMAGE_WIDTH
    }

    /// An empty image keeping at most `max_rows` rows (at least one).
    pub fn new(max_rows: usize) -> (img: Self)
        ensures
            img.wf(),
            img@.rows == Seq::<Seq<u8>>::empty(),
            img@.max_rows == if max_rows >= 1 { max_rows as nat } else { 1 },
            img@.total_lines == 0,
    {
        let img = Image { rows: VecDeque::new(), max_rows: if max_rows >= 1 { max_rows } else { 1 }, total_lines: 0 };
        proof {
            assert(img@.rows =~= Seq::<Seq<u8>>::empty());
        }
        img
    }

    /// Appends one line (channel A then channel B), dropping the oldest rows
    /// beyond `max_rows`.
    pub fn push_line(&mut self, image_a: &[u8; 909], image_b: &[u8; 909])
        requires
            old(self).wf(),
            old(self)@.total_lines < u64::MAX,
        ensures
            final(self).wf(),
            final(self)@.rows == kept_rows(old(self)@.rows, image_a@ + image_b@, old(self)@.max_rows),
            final(self)@.max_rows == old(self)@.max_rows,
            final(self)@.total_lines == old(self)@.total_lines + 1,
    {
        let mut row: Vec<u8> = Vec::new();
        let mut k: usize = 0;
        while k < IMAGE_LEN
            invariant
                k <= IMAGE_LEN,
                row@ == image_a@.take(k as int),
            decreases IMAGE_LEN - k,
        {
            row.push(image_a[k]);
            proof {
                assert(row@ =~= image_a@.take(k + 1));
            }
            k = k + 1;
        }
        let mut k: usize = 0;
        while k < IMAGE_LEN
            invariant
                k <= IMAGE_LEN,
                row@ == image_a@ + image_b@.take(k as int),
            decreases IMAGE_LEN - k,
        {
            row.push(image_b[k]);
            proof {
                assert(row@ =~= image_a@ + image_b@.take(k + 1));
            }
            k = k + 1;
        }
        proof {
            assert(image_a@.take(909) =~= image_a@);
            assert(image_b@.take(909) =~= image_b@);
        }
        let ghost r = self@.rows.push(row@);
        self.rows.push_back(row);
        proof {
            assert(self@.rows =~= r);
        }
        while self.rows.len() > self.max_rows
            invariant
                self.max_rows >= 1,
                self.max_rows == old(self)@.max_rows,
                self.total_lines == old(self)@.total_lines,
                r.len() == old(self)@.rows.len() + 1,
                old(self)@.rows.len() <= self.max_rows,
                self.rows@.len() <= r.len(),
                self.rows@.len() == r.len() || self.rows@.len() >= self.max_rows,
                self@.rows == r.subrange(r.len() - self.rows@.len(), r.len() as int),
                forall|i: int| 0 <= i < self.rows@.len() ==> #[trigger] self.rows@[i]@.len() == IMAGE_WIDTH,
            decreases self.rows.len(),
        {
            let ghost before = self@.rows;
            let _ = self.rows.pop_front();
            proof {
                assert(self@.rows =~= before.drop_first());
            }
        }
        self.total_lines = self.total_lines + 1;
        proof {
            if r.len() > self.max_rows {
                assert(self@.rows =~= r.subrange(r.len() - self.max_rows, r.len() as int));
            } else {
                assert(self@.rows =~= r);
            }
        }
    }

    /// `[u32 width LE][u32 height LE][row-major grayscale bytes]`.
    pub fn encode(&self) -> (b: Bytes)
        ensures
            bytes_content(b) == raster(self@.rows),
    {
        let height = self.rows.len();
        let mut buf: Vec<u8> = Vec::new();
        push_le32(&mut buf, 1818u32);
        #[verifier::truncate]
        let h32 = height as u32;
        push_le32(&mut buf, h32);
        let ghost head = buf@;
        let mut i: usize = 0;
        while i < height
            invariant
                i <= height,
                height == self.rows@.len(),
                buf@ == head + flatten(self@.rows.take(i as int)),
            decreases height - i,
        {
            let row = &self.rows[i];
            let mut k: usize = 0;
            let ghost start = buf@;
            while k < row.len()
                invariant
                    k <= row@.len(),
                    buf@ == start + row@.take(k as int),
                decreases row.len() - k,
            {
                buf.push(row[k]);
                proof {
                    assert(buf@ =~= start + row@.take(k + 1));
                }
                k = k + 1;
            }
            proof {
                let t = self@.rows.take(i + 1);
                assert(t.drop_last() =~= self@.rows.take(i as int));
                assert(t.last() == row@);
                assert(row@.take(k as int) =~= row@);
                assert(buf@ =~= head + flatten(t));
            }
            i = i + 1;
        }
        proof {
            assert(self@.rows.take(i as int) =~= self@.rows);
            assert(buf@ =~= raster(self@.rows));
        }
        bytes_from_vec(buf)
    }

    /// Width, height and the number of lines received so far.
    pub fn status(&self) -> (s: ImageStatus)
        ensures
            s.width == IMAGE_WIDTH,
            s.height == self@.rows.len(),
            s.lines == self@.total_lines,
    {
        ImageStatus { width: IMAGE_WIDTH, height: self.rows.len(), lines: self.total_lines }
    }
}

fn push_le32(out: &mut Vec<u8>, x: u32)
    ensures
        final(out)@ == old(out)@ + le32(x),
{
    out.push((x & 0xff) as u8);
    out.push(((x >> 8u32) & 0xff) as u8);
    out.push(((x >> 16u32) & 0xff) as u8);
    out.push(((x >> 24u32) & 0xff) as u8);
    proof {
        assert(final(out)@ =~= old(out)@ + le32(x));
    }
}

/// The image never grows past `max_rows` rows, however many lines arrive.
pub proof fn lemma_image_bounded(img: &Image)
    requires
        img.wf(),
    ensures
        img@.rows.len() <= img@.max_rows,
{
}

} // verus!
