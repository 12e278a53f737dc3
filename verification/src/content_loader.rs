use vstd::prelude::*;
use crate::bytes::push_bytes;

verus! {

/// Accumulates raw HTTP content until the declared number of bytes has
/// arrived, then hands back the content and the surplus after it.
pub struct ContentLoader {
    buf: Vec<u8>,
    content_len: usize,
}

impl ContentLoader {
    /// The bytes gathered so far.
    pub closed spec fn buffered(self) -> Seq<u8> {
        self.buf@
    }

    /// The number of bytes to gather.
    pub closed spec fn spec_content_len(self) -> int {
        self.content_len as int
    }

    /// A loader expecting `content_len` bytes.
    pub fn new(content_len: usize) -> (r: ContentLoader)
        ensures
            r.buffered() == Seq::<u8>::empty(),
            r.spec_content_len() == content_len,
    {
        ContentLoader { buf: Vec::new(), content_len }
    }

    /// Feeds a chunk. Once the gathered bytes reach the declared length,
    /// returns exactly that many bytes as the content and the rest as the
    /// surplus, and resets the loader.
    pub fn load_yet(&mut self, buf: &[u8]) -> (r: Option<(Vec<u8>, Vec<u8>)>)
        ensures
            final(self).spec_content_len() == old(self).spec_content_len(),
            ({
                let all = old(self).buffered() + buf@;
                let clen = old(self).spec_content_len();
                match r {
                    None => all.len() < clen && final(self).buffered() == all,
                    Some((content, surplus)) => {
                        &&& all.len() >= clen
                        &&& content@ == all.take(clen)
                        &&& surplus@ == all.skip(clen)
                        &&& final(self).buffered() == Seq::<u8>::empty()
                    }
                }
            }),
    {
        push_bytes(&mut self.buf, buf);
        if self.buf.len() < self.content_len {
            return None;
        }
        let total = self.buf.len();
        let surplus = vstd::slice::slice_to_vec(
            vstd::slice::slice_subrange(self.buf.as_slice(), self.content_len, total),
        );
        self.buf.truncate(self.content_len);
        let mut result_content: Vec<u8> = Vec::new();
        core::mem::swap(&mut self.buf, &mut result_content);
        proof {
            assert(result_content@ =~= (old(self).buffered() + buf@).take(
                old(self).spec_content_len(),
            ));
            assert(surplus@ =~= (old(self).buffered() + buf@).skip(old(self).spec_content_len()));
            assert(self.buffered() =~= Seq::<u8>::empty());
        }
        Some((result_content, surplus))
    }
}

} // verus!
