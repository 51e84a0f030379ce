use vstd::prelude::*;

verus! {

/// An Ogg page, modelled by the values the splicing engine reads: the header
/// fields and the raw packet segments carried in the body. Byte-exact framing
/// and CRC recomputation belong to the surrounding codec; every mutation of a
/// modelled page therefore simply produces the new field values, and the codec
/// reframes (and re-checksums) the page when it is written out.
pub struct Page {
    /// Granule position: for Vorbis, the sample number of the last packet
    /// completed on this page, or `u64::MAX` when no packet completes.
    pub granule: u64,
    /// Logical bitstream serial number.
    pub serial: u32,
    /// Page sequence number within its logical bitstream.
    pub sequence: u32,
    /// First page of a logical bitstream.
    pub bos: bool,
    /// Last page of a logical bitstream.
    pub eos: bool,
    /// The first packet of this page continues a packet begun on the page
    /// before it.
    pub continued: bool,
    /// The raw packet segments of the page body, in order. A packet that runs
    /// over a page boundary appears as its leading fragment here and as the
    /// trailing fragment at the front of the next (continued) page.
    pub packets: Vec<Vec<u8>>,
}

/// The mathematical value of a [`Page`].
pub ghost struct PageModel {
    pub granule: u64,
    pub serial: u32,
    pub sequence: u32,
    pub bos: bool,
    pub eos: bool,
    pub continued: bool,
    pub packets: Seq<Seq<u8>>,
}

impl View for Page {
    type V = PageModel;

    open spec fn view(&self) -> PageModel {
        PageModel {
            granule: self.granule,
            serial: self.serial,
            sequence: self.sequence,
            bos: self.bos,
            eos: self.eos,
            continued: self.continued,
            packets: self.packets.deep_view(),
        }
    }
}

impl PageModel {
    /// The same page under another serial number.
    pub open spec fn with_serial(self, serial: u32) -> PageModel {
        PageModel { serial, ..self }
    }

    /// The same page re-addressed to sit at the given stream position.
    pub open spec fn with_position(self, granule: u64, serial: u32, sequence: u32) -> PageModel {
        PageModel { granule, serial, sequence, ..self }
    }
}

/// Copies one packet segment.
pub fn copy_bytes(v: &Vec<u8>) -> (r: Vec<u8>)
    ensures
        r@ == v@,
{
    let mut out: Vec<u8> = Vec::new();
    let mut i: usize = 0;
    while i < v.len()
        invariant
            i <= v.len(),
            out@ == v@.take(i as int),
        decreases v.len() - i,
    {
        out.push(v[i]);
        i = i + 1;
        proof {
            assert(out@ =~= v@.take(i as int));
        }
    }
    proof {
        assert(out@ =~= v@);
    }
    out
}

/// Two packet lists whose segments hold the same bytes have the same
/// mathematical value.
pub proof fn lemma_packets_eq(a: &Vec<Vec<u8>>, b: &Vec<Vec<u8>>)
    requires
        a@.len() == b@.len(),
        forall|j: int| 0 <= j < a@.len() ==> a@[j]@ == b@[j]@,
    ensures
        a.deep_view() == b.deep_view(),
{
    assert forall|j: int| 0 <= j < a@.len() implies a.deep_view()[j] == b.deep_view()[j] by {
        assert(a@[j].deep_view() =~= a@[j]@);
        assert(b@[j].deep_view() =~= b@[j]@);
    }
    assert(a.deep_view() =~= b.deep_view());
}

/// Copies a packet list.
pub fn copy_packets(v: &Vec<Vec<u8>>) -> (r: Vec<Vec<u8>>)
    ensures
        r.deep_view() == v.deep_view(),
{
    let mut out: Vec<Vec<u8>> = Vec::new();
    let mut i: usize = 0;
    while i < v.len()
        invariant
            i <= v.len(),
            out@.len() == i,
            forall|j: int| 0 <= j < i ==> out@[j]@ == v@[j]@,
        decreases v.len() - i,
    {
        out.push(copy_bytes(&v[i]));
        i = i + 1;
    }
    proof {
        lemma_packets_eq(&out, v);
    }
    out
}

impl Page {
    /// A deep copy with the same model.
    pub fn copy_page(&self) -> (r: Page)
        ensures
            r@ == self@,
    {
        Page {
            granule: self.granule,
            serial: self.serial,
            sequence: self.sequence,
            bos: self.bos,
            eos: self.eos,
            continued: self.continued,
            packets: copy_packets(&self.packets),
        }
    }

    /// Re-tags the page with a new bitstream serial.
    pub fn set_serial(&mut self, serial: u32)
        ensures
            final(self)@ == (PageModel { serial, ..old(self)@ }),
    {
        self.serial = serial;
    }

    /// Re-addresses the page to sit at the given stream position.
    pub fn set_position_fields(&mut self, granule: u64, serial: u32, sequence: u32)
        ensures
            final(self)@ == old(self)@.with_position(granule, serial, sequence),
    {
        self.granule = granule;
        self.serial = serial;
        self.sequence = sequence;
    }
}

} // verus!
