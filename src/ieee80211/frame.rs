use super::element::InfoElementIter;
use super::field::{
    control_value, header_size, BeaconInterval, Capability, FrameControl, MACAddr,
    ManagementHeader,
};
use crate::bytes::{le16, MemCast, OutOfBounds};
use vstd::prelude::*;
use vstd::slice::slice_subrange;

verus! {

/// The `n` bytes of `s` at `off`.
pub open spec fn bytes_at(s: Seq<u8>, off: int, n: int) -> Seq<u8> {
    s.subrange(off, off + n)
}

/// Bytes from the start of frame `s` to the end of its management header (HT control
/// included), as its frame control announces.
pub open spec fn mgmt_size(s: Seq<u8>) -> int {
    header_size(control_value(s))
}

/// Sizes of the fixed fields of a beacon body: timestamp, beacon interval, capability.
pub const TIMESTAMP_SIZE: usize = 8;

pub const BEACON_INTERVAL_SIZE: usize = 2;

pub const CAPABILITY_SIZE: usize = 2;

/// Any 802.11 frame: its first two bytes are the frame control.
pub trait Frame: View<V = Seq<u8>> {
    fn control(&self) -> (r: Result<FrameControl, OutOfBounds>)
        ensures
            match r {
                Ok(fc) => self@.len() >= 2 && fc.value() == control_value(self@),
                Err(_) => self@.len() < 2,
            },
    ;
}

impl Frame for [u8] {
    fn control(&self) -> (r: Result<FrameControl, OutOfBounds>) {
        match self.cast_ref::<2>(0) {
            Ok(b) => Ok(FrameControl::new(b)),
            Err(e) => Err(e),
        }
    }
}

/// A management frame: frame control, then the management header, then an HT-control field
/// where ORDER is set.
pub trait Management: View<V = Seq<u8>> {
    /// The whole management header; `OutOfBounds` where the frame is shorter than 24 bytes.
    fn header(&self) -> (r: Result<ManagementHeader, OutOfBounds>)
        ensures
            match r {
                Ok(h) => {
                    &&& self@.len() >= 24
                    &&& h.duration@ == bytes_at(self@, 2, 2)
                    &&& h.addr1@ == bytes_at(self@, 4, 6)
                    &&& h.addr2@ == bytes_at(self@, 10, 6)
                    &&& h.addr3@ == bytes_at(self@, 16, 6)
                    &&& h.seq_control@ == bytes_at(self@, 22, 2)
                },
                Err(_) => self@.len() < 24,
            },
    ;

    fn duration_id(&self) -> (r: Result<[u8; 2], OutOfBounds>)
        ensures
            match r {
                Ok(d) => self@.len() >= 24 && d@ == bytes_at(self@, 2, 2),
                Err(_) => self@.len() < 24,
            },
    ;

    fn addr1(&self) -> (r: Result<MACAddr, OutOfBounds>)
        ensures
            match r {
                Ok(a) => self@.len() >= 24 && a@ == bytes_at(self@, 4, 6),
                Err(_) => self@.len() < 24,
            },
    ;

    fn addr2(&self) -> (r: Result<MACAddr, OutOfBounds>)
        ensures
            match r {
                Ok(a) => self@.len() >= 24 && a@ == bytes_at(self@, 10, 6),
                Err(_) => self@.len() < 24,
            },
    ;

    fn addr3(&self) -> (r: Result<MACAddr, OutOfBounds>)
        ensures
            match r {
                Ok(a) => self@.len() >= 24 && a@ == bytes_at(self@, 16, 6),
                Err(_) => self@.len() < 24,
            },
    ;

    fn seq_control(&self) -> (r: Result<[u8; 2], OutOfBounds>)
        ensures
            match r {
                Ok(d) => self@.len() >= 24 && d@ == bytes_at(self@, 22, 2),
                Err(_) => self@.len() < 24,
            },
    ;

    /// The HT-control field: `None` where ORDER is clear, the four bytes after the header
    /// where it is set.
    fn ht_control(&self) -> (r: Result<Option<[u8; 4]>, OutOfBounds>)
        ensures
            match r {
                Ok(None) => self@.len() >= 2 && mgmt_size(self@) == 24,
                Ok(Some(h)) => self@.len() >= 28 && mgmt_size(self@) == 28 && h@ == bytes_at(
                    self@,
                    24,
                    4,
                ),
                Err(_) => self@.len() < 2 || (mgmt_size(self@) == 28 && self@.len() < 28),
            },
    ;

    /// Size of the header, HT control included: where anything that follows it starts.
    fn size_of(&self) -> (r: Result<usize, OutOfBounds>)
        ensures
            match r {
                Ok(n) => self@.len() >= 2 && n == mgmt_size(self@),
                Err(_) => self@.len() < 2,
            },
    ;

    /// Receiver address.
    fn ra(&self) -> (r: Result<MACAddr, OutOfBounds>)
        ensures
            match r {
                Ok(a) => self@.len() >= 24 && a@ == bytes_at(self@, 4, 6),
                Err(_) => self@.len() < 24,
            },
    ;

    /// Destination address.
    fn da(&self) -> (r: Result<MACAddr, OutOfBounds>)
        ensures
            match r {
                Ok(a) => self@.len() >= 24 && a@ == bytes_at(self@, 4, 6),
                Err(_) => self@.len() < 24,
            },
    ;

    /// Source address.
    fn sa(&self) -> (r: Result<MACAddr, OutOfBounds>)
        ensures
            match r {
                Ok(a) => self@.len() >= 24 && a@ == bytes_at(self@, 10, 6),
                Err(_) => self@.len() < 24,
            },
    ;

    /// Transmitter address.
    fn ta(&self) -> (r: Result<MACAddr, OutOfBounds>)
        ensures
            match r {
                Ok(a) => self@.len() >= 24 && a@ == bytes_at(self@, 10, 6),
                Err(_) => self@.len() < 24,
            },
    ;

    fn bssid(&self) -> (r: Result<MACAddr, OutOfBounds>)
        ensures
            match r {
                Ok(a) => self@.len() >= 24 && a@ == bytes_at(self@, 16, 6),
                Err(_) => self@.len() < 24,
            },
    ;
}

impl Management for [u8] {
    fn header(&self) -> (r: Result<ManagementHeader, OutOfBounds>) {
        if self.len() < 24 {
            return Err(OutOfBounds);
        }
        Ok(
            ManagementHeader {
                duration: self.duration_id()?,
                addr1: self.addr1()?,
                addr2: self.addr2()?,
                addr3: self.addr3()?,
                seq_control: self.seq_control()?,
            },
        )
    }

    fn duration_id(&self) -> (r: Result<[u8; 2], OutOfBounds>) {
        if self.len() < 24 {
            return Err(OutOfBounds);
        }
        self.cast_ref::<2>(2)
    }

    fn addr1(&self) -> (r: Result<MACAddr, OutOfBounds>) {
        if self.len() < 24 {
            return Err(OutOfBounds);
        }
        Ok(MACAddr::new(self.cast_ref::<6>(4)?))
    }

    fn addr2(&self) -> (r: Result<MACAddr, OutOfBounds>) {
        if self.len() < 24 {
            return Err(OutOfBounds);
        }
        Ok(MACAddr::new(self.cast_ref::<6>(10)?))
    }

    fn addr3(&self) -> (r: Result<MACAddr, OutOfBounds>) {
        if self.len() < 24 {
            return Err(OutOfBounds);
        }
        Ok(MACAddr::new(self.cast_ref::<6>(16)?))
    }

    fn seq_control(&self) -> (r: Result<[u8; 2], OutOfBounds>) {
        if self.len() < 24 {
            return Err(OutOfBounds);
        }
        self.cast_ref::<2>(22)
    }

    fn ht_control(&self) -> (r: Result<Option<[u8; 4]>, OutOfBounds>) {
        let fc = self.control()?;
        if fc.has_order() {
            Ok(Some(self.cast_ref::<4>(24)?))
        } else {
            Ok(None)
        }
    }

    fn size_of(&self) -> (r: Result<usize, OutOfBounds>) {
        let fc = self.control()?;
        Ok(fc.frame_size())
    }

    fn ra(&self) -> (r: Result<MACAddr, OutOfBounds>) {
        self.addr1()
    }

    fn da(&self) -> (r: Result<MACAddr, OutOfBounds>) {
        self.addr1()
    }

    fn sa(&self) -> (r: Result<MACAddr, OutOfBounds>) {
        self.addr2()
    }

    fn ta(&self) -> (r: Result<MACAddr, OutOfBounds>) {
        self.addr2()
    }

    fn bssid(&self) -> (r: Result<MACAddr, OutOfBounds>) {
        self.addr3()
    }
}

/// Where the information elements of a beacon start: after the header, the timestamp, the
/// beacon interval and the capability field.
pub open spec fn beacon_body_offset(s: Seq<u8>) -> int {
    mgmt_size(s) + 12
}

/// A beacon: the management header, then timestamp, beacon interval and capability, then
/// information elements.
pub trait Beacon: View<V = Seq<u8>> {
    fn timestamp(&self) -> (r: Result<[u8; 8], OutOfBounds>)
        ensures
            match r {
                Ok(t) => self@.len() >= 2 && self@.len() >= mgmt_size(self@) + 8 && t@ == bytes_at(
                    self@,
                    mgmt_size(self@),
                    8,
                ),
                Err(_) => self@.len() < 2 || self@.len() < mgmt_size(self@) + 8,
            },
    ;

    fn interval(&self) -> (r: Result<BeaconInterval, OutOfBounds>)
        ensures
            match r {
                Ok(i) => {
                    &&& self@.len() >= 2
                    &&& self@.len() >= mgmt_size(self@) + 10
                    &&& i.value() == le16(bytes_at(self@, mgmt_size(self@) + 8, 2)) as u16
                },
                Err(_) => self@.len() < 2 || self@.len() < mgmt_size(self@) + 10,
            },
    ;

    fn capability(&self) -> (r: Result<Capability, OutOfBounds>)
        ensures
            match r {
                Ok(c) => {
                    &&& self@.len() >= 2
                    &&& self@.len() >= mgmt_size(self@) + 12
                    &&& c.value() == le16(bytes_at(self@, mgmt_size(self@) + 10, 2)) as u16
                    &&& c.low_bits() == self@[mgmt_size(self@) + 10]
                },
                Err(_) => self@.len() < 2 || self@.len() < mgmt_size(self@) + 12,
            },
    ;

    /// The information elements, starting right after the capability field.
    fn info_elements(&self) -> (r: Result<InfoElementIter<'_>, OutOfBounds>)
        ensures
            match r {
                Ok(it) => {
                    &&& self@.len() >= 2
                    &&& self@.len() >= beacon_body_offset(self@)
                    &&& it@ == self@.skip(beacon_body_offset(self@))
                },
                Err(_) => self@.len() < 2 || self@.len() < beacon_body_offset(self@),
            },
    ;
}

impl Beacon for [u8] {
    fn timestamp(&self) -> (r: Result<[u8; 8], OutOfBounds>) {
        let offset = Management::size_of(self)?;
        self.cast_ref::<8>(offset)
    }

    fn interval(&self) -> (r: Result<BeaconInterval, OutOfBounds>) {
        let offset = Management::size_of(self)? + TIMESTAMP_SIZE;
        Ok(BeaconInterval::new(self.cast_ref::<2>(offset)?))
    }

    fn capability(&self) -> (r: Result<Capability, OutOfBounds>) {
        let offset = Management::size_of(self)? + TIMESTAMP_SIZE + BEACON_INTERVAL_SIZE;
        Ok(Capability::new(self.cast_ref::<2>(offset)?))
    }

    fn info_elements(&self) -> (r: Result<InfoElementIter<'_>, OutOfBounds>) {
        let offset = Management::size_of(self)? + TIMESTAMP_SIZE + BEACON_INTERVAL_SIZE
            + CAPABILITY_SIZE;
        if self.len() < offset {
            return Err(OutOfBounds);
        }
        Ok(InfoElementIter::new(slice_subrange(self, offset, self.len())))
    }
}

/// A probe request: the management header, then information elements.
pub trait ProbeRequest: View<V = Seq<u8>> {
    /// The information elements, starting right after the management header.
    fn info_elements(&self) -> (r: Result<InfoElementIter<'_>, OutOfBounds>)
        ensures
            match r {
                Ok(it) => {
                    &&& self@.len() >= 2
                    &&& self@.len() >= mgmt_size(self@)
                    &&& it@ == self@.skip(mgmt_size(self@))
                },
                Err(_) => self@.len() < 2 || self@.len() < mgmt_size(self@),
            },
    ;
}

impl ProbeRequest for [u8] {
    fn info_elements(&self) -> (r: Result<InfoElementIter<'_>, OutOfBounds>) {
        let offset = Management::size_of(self)?;
        if self.len() < offset {
            return Err(OutOfBounds);
        }
        Ok(InfoElementIter::new(slice_subrange(self, offset, self.len())))
    }
}

} // verus!
