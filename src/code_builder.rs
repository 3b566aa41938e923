use vstd::prelude::*;

verus! {

/// A source map section: the byte offset in the code where it starts, and
/// the source map that applies from there on (`None` for synthetic code).
pub type Mapping = (usize, Option<usize>);

/// Combined output code and the source maps of its sections.
pub struct Code {
    code: Vec<u8>,
    mappings: Vec<Mapping>,
}

/// Builds a [`Code`] piece by piece.
pub struct CodeBuilder {
    code: Vec<u8>,
    mappings: Vec<Mapping>,
}

/// Every section of `mappings` starts within `len` bytes of code.
pub open spec fn sections_within(mappings: Seq<Mapping>, len: nat) -> bool {
    forall|i: int| 0 <= i < mappings.len() ==> #[trigger] mappings[i].0 <= len
}

/// The sections start in order: no section starts before the one ahead of
/// it.
pub open spec fn sections_ordered(mappings: Seq<Mapping>) -> bool {
    forall|i: int, j: int| 0 <= i < j < mappings.len() ==> #[trigger] mappings[i].0 <= #[trigger] mappings[j].0
}

/// The sections after marking that a section with `map` starts at offset
/// `at`: a section without a map directly after another one without a map
/// (or at the very start) is not recorded.
pub open spec fn spec_push_map(mappings: Seq<Mapping>, at: usize, map: Option<usize>) -> Seq<Mapping> {
    if map is None && (mappings.len() == 0 || mappings.last().1 is None) {
        mappings
    } else {
        mappings.push((at, map))
    }
}

/// The sections of `prebuilt`, moved `shift` bytes on.
pub open spec fn shifted(mappings: Seq<Mapping>, shift: nat) -> Seq<Mapping> {
    mappings.map_values(|m: Mapping| ((m.0 + shift) as usize, m.1))
}

/// The sections after appending code whose own sections are `prebuilt` at
/// offset `at`.
pub open spec fn spec_push_code(mappings: Seq<Mapping>, at: usize, prebuilt: Seq<Mapping>) -> Seq<
    Mapping,
> {
    if prebuilt.len() > 0 {
        let base = if prebuilt[0].0 > 0 {
            spec_push_map(mappings, at, None)
        } else {
            mappings
        };
        base + shifted(prebuilt, at as nat)
    } else {
        spec_push_map(mappings, at, None)
    }
}

impl Code {
    pub closed spec fn spec_code(&self) -> Seq<u8> {
        self.code@
    }

    pub closed spec fn spec_mappings(&self) -> Seq<Mapping> {
        self.mappings@
    }

    /// Every section starts within the code, and the sections are in order.
    pub open spec fn wf(&self) -> bool {
        &&& sections_within(self.spec_mappings(), self.spec_code().len())
        &&& sections_ordered(self.spec_mappings())
    }

    pub fn source_code(&self) -> (r: &Vec<u8>)
        ensures
            r@ == self.spec_code(),
    {
        &self.code
    }

    /// Whether any section of the code has a source map entry.
    pub fn has_source_map(&self) -> (r: bool)
        ensures
            r == (self.spec_mappings().len() > 0),
    {
        self.mappings.len() > 0
    }
}

fn append_bytes(code: &mut Vec<u8>, bytes: &[u8])
    ensures
        final(code)@ == old(code)@ + bytes@,
{
    let mut i: usize = 0;
    while i < bytes.len()
        invariant
            i <= bytes@.len(),
            code@ == old(code)@ + bytes@.subrange(0, i as int),
        decreases bytes@.len() - i,
    {
        code.push(bytes[i]);
        proof {
            assert(bytes@.subrange(0, i + 1) =~= bytes@.subrange(0, i as int).push(bytes@[i as int]));
        }
        i = i + 1;
    }
    proof {
        assert(bytes@.subrange(0, bytes@.len() as int) =~= bytes@);
    }
}

impl CodeBuilder {
    pub closed spec fn spec_code(&self) -> Seq<u8> {
        self.code@
    }

    pub closed spec fn spec_mappings(&self) -> Seq<Mapping> {
        self.mappings@
    }

    /// Every section starts within the code, and the sections are in order.
    pub open spec fn wf(&self) -> bool {
        &&& sections_within(self.spec_mappings(), self.spec_code().len())
        &&& sections_ordered(self.spec_mappings())
    }

    /// An empty builder.
    pub fn new() -> (r: Self)
        ensures
            r.wf(),
            r.spec_code() == Seq::<u8>::empty(),
            r.spec_mappings() == Seq::<Mapping>::empty(),
    {
        CodeBuilder { code: Vec::new(), mappings: Vec::new() }
    }

    /// Marks that a section with source map `map` starts at the current end of
    /// the code. A section without a map directly after another one without a
    /// map, or at the very start, tells nothing and is not recorded.
    pub fn push_map(&mut self, map: Option<usize>)
        requires
            old(self).wf(),
        ensures
            final(self).wf(),
            final(self).spec_code() == old(self).spec_code(),
            final(self).spec_mappings() == spec_push_map(
                old(self).spec_mappings(),
                old(self).spec_code().len() as usize,
                map,
            ),
    {
        if map.is_none() {
            let n = self.mappings.len();
            if n == 0 {
                return;
            }
            if self.mappings[n - 1].1.is_none() {
                return;
            }
        }
        let at = self.code.len();
        self.mappings.push((at, map));
    }

    /// Appends synthetic code, which has no source map.
    pub fn push_static_bytes(&mut self, code: &[u8])
        requires
            old(self).wf(),
        ensures
            final(self).wf(),
            final(self).spec_code() == old(self).spec_code() + code@,
            final(self).spec_mappings() == spec_push_map(
                old(self).spec_mappings(),
                old(self).spec_code().len() as usize,
                None,
            ),
    {
        self.push_map(None);
        append_bytes(&mut self.code, code);
    }

    /// Appends user code, with its source map where there is one.
    pub fn push_source(&mut self, code: &Vec<u8>, map: Option<usize>)
        requires
            old(self).wf(),
        ensures
            final(self).wf(),
            final(self).spec_code() == old(self).spec_code() + code@,
            final(self).spec_mappings() == spec_push_map(
                old(self).spec_mappings(),
                old(self).spec_code().len() as usize,
                map,
            ),
    {
        self.push_map(map);
        append_bytes(&mut self.code, code.as_slice());
    }

    /// Appends an already built [`Code`], with its sections moved to where
    /// its code now starts. Where the prebuilt code starts with synthetic
    /// code, or has no sections at all, a section without a map ends the
    /// current one first.
    pub fn push_code(&mut self, prebuilt: &Code)
        requires
            old(self).wf(),
            prebuilt.wf(),
            old(self).spec_code().len() + prebuilt.spec_code().len() <= usize::MAX,
        ensures
            final(self).wf(),
            final(self).spec_code() == old(self).spec_code() + prebuilt.spec_code(),
            final(self).spec_mappings() == spec_push_code(
                old(self).spec_mappings(),
                old(self).spec_code().len() as usize,
                prebuilt.spec_mappings(),
            ),
    {
        let len = self.code.len();
        if prebuilt.mappings.len() > 0 {
            if prebuilt.mappings[0].0 > 0 {
                self.push_map(None);
            }
            let ghost base = self.mappings@;
            let mut i: usize = 0;
            while i < prebuilt.mappings.len()
                invariant
                    prebuilt.wf(),
                    len == self.code@.len(),
                    self.code@ == old(self).spec_code(),
                    len + prebuilt.spec_code().len() <= usize::MAX,
                    sections_within(base, len as nat),
                    sections_ordered(base),
                    sections_ordered(self.mappings@),
                    i <= prebuilt.spec_mappings().len(),
                    self.mappings@ == base + shifted(prebuilt.spec_mappings(), len as nat).subrange(
                        0,
                        i as int,
                    ),
                decreases prebuilt.spec_mappings().len() - i,
            {
                let (index, map) = prebuilt.mappings[i];
                proof {
                    assert(prebuilt.spec_mappings()[i as int].0 <= prebuilt.spec_code().len());
                }
                let ghost before = self.mappings@;
                proof {
                    assert forall|q: int| 0 <= q < before.len() implies before[q].0 <= index + len by {
                        if q < base.len() {
                            assert(base[q].0 <= len);
                        } else {
                            let p = q - base.len();
                            assert(before[q] == shifted(prebuilt.spec_mappings(), len as nat)[p]);
                            assert(prebuilt.spec_mappings()[p].0 <= prebuilt.spec_mappings()[i as int].0);
                        }
                    }
                }
                self.mappings.push((index + len, map));
                proof {
                    assert forall|a: int, b: int| 0 <= a < b < self.mappings@.len() implies #[trigger] self.mappings@[a].0
                        <= #[trigger] self.mappings@[b].0 by {
                        if b < before.len() {
                            assert(before[a].0 <= before[b].0);
                        } else {
                            assert(before[a].0 <= index + len);
                        }
                    }
                    assert(shifted(prebuilt.spec_mappings(), len as nat).subrange(0, i + 1) =~= shifted(
                        prebuilt.spec_mappings(),
                        len as nat,
                    ).subrange(0, i as int).push(((index + len) as usize, map)));
                }
                i = i + 1;
            }
            proof {
                assert(shifted(prebuilt.spec_mappings(), len as nat).subrange(
                    0,
                    prebuilt.spec_mappings().len() as int,
                ) =~= shifted(prebuilt.spec_mappings(), len as nat));
            }
        } else {
            self.push_map(None);
        }
        let ghost before = self.mappings@;
        append_bytes(&mut self.code, prebuilt.code.as_slice());
        proof {
            let total = self.code@.len();
            assert forall|i: int| 0 <= i < self.mappings@.len() implies #[trigger] self.mappings@[i].0
                <= total by {
                if prebuilt.spec_mappings().len() > 0 {
                    let base_len = self.mappings@.len() - prebuilt.spec_mappings().len();
                    if i >= base_len {
                        assert(prebuilt.spec_mappings()[i - base_len].0 <= prebuilt.spec_code().len());
                    }
                }
            }
        }
    }

    /// Whether any section pushed so far has a source map entry.
    pub fn has_source_map(&self) -> (r: bool)
        ensures
            r == (self.spec_mappings().len() > 0),
    {
        self.mappings.len() > 0
    }

    /// The code built so far, with its sections.
    pub fn build(self) -> (r: Code)
        ensures
            r.spec_code() == self.spec_code(),
            r.spec_mappings() == self.spec_mappings(),
            self.wf() ==> r.wf(),
    {
        Code { code: self.code, mappings: self.mappings }
    }
}

} // verus!
