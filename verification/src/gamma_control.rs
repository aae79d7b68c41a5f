//! Gamma tables that a client uploads for the panel.
use vstd::prelude::*;

verus! {

/// A change that the backend has yet to make.
#[derive(Debug)]
pub enum GammaUpdate {
    /// Program these ramps: red, green and blue.
    Program(Vec<u16>, Vec<u16>, Vec<u16>),
    /// The owner is gone: restore what was there before.
    Reset,
}

/// Who owns the table, and what it holds next.
#[derive(Debug)]
pub struct GammaControl {
    /// The length of a ramp.
    pub size: u32,
    pub active: Option<u64>,
    pub pending: Option<GammaUpdate>,
}

/// Why a table is refused.
#[derive(Clone, Copy, Debug, PartialEq, Eq, Structural)]
pub enum GammaError {
    /// The panel has no table.
    Unsupported,
    /// There are not enough bytes for three ramps.
    Short,
}

/// The two bytes of an entry, as a number.
pub open spec fn entry(a: u8, b: u8, little_endian: bool) -> u16 {
    if little_endian {
        (a + 256 * b) as u16
    } else {
        (256 * a + b) as u16
    }
}

/// The ramp of a channel: `size` entries of two bytes each, after the ramps of
/// the channels before it.
pub open spec fn ramp(bytes: Seq<u8>, size: int, channel: int, little_endian: bool) -> Seq<u16> {
    Seq::new(
        size as nat,
        |i: int|
            entry(
                bytes[(channel * size + i) * 2],
                bytes[(channel * size + i) * 2 + 1],
                little_endian,
            ),
    )
}

/// Three ramps take six bytes per entry.
pub open spec fn table_len(size: u32) -> int {
    size * 6
}

/// Whether `update` programs the three ramps that `bytes` holds back to back.
pub open spec fn holds_ramps(
    update: GammaUpdate,
    bytes: Seq<u8>,
    size: int,
    little_endian: bool,
) -> bool {
    match update {
        GammaUpdate::Program(red, green, blue) => {
            &&& red@ == ramp(bytes, size, 0, little_endian)
            &&& green@ == ramp(bytes, size, 1, little_endian)
            &&& blue@ == ramp(bytes, size, 2, little_endian)
        },
        GammaUpdate::Reset => false,
    }
}

/// Whether `e` is why a table is refused.
pub open spec fn refused(e: GammaError, bytes: Seq<u8>, size: u32) -> bool {
    match e {
        GammaError::Unsupported => size == 0,
        GammaError::Short => size > 0 && bytes.len() < table_len(size),
    }
}

fn read_ramp(bytes: &Vec<u8>, size: usize, channel: usize, little_endian: bool) -> (out: Vec<u16>)
    requires
        channel < 3,
        bytes.len() >= size * 6,
    ensures
        out@ == ramp(bytes@, size as int, channel as int, little_endian),
{
    let mut out: Vec<u16> = Vec::new();
    let mut i: usize = 0;
    while i < size
        invariant
            i <= size,
            channel < 3,
            bytes.len() >= size * 6,
            out@ =~= ramp(bytes@, size as int, channel as int, little_endian).take(i as int),
        decreases size - i,
    {
        assert(0 <= channel * size + i < 3 * size) by (nonlinear_arith)
            requires
                0 <= channel <= 2,
                0 <= i < size,
        ;
        let at: usize = (channel * size + i) * 2;
        let a: u16 = bytes[at] as u16;
        let b: u16 = bytes[at + 1] as u16;
        out.push(
            if little_endian {
                a + 256 * b
            } else {
                256 * a + b
            },
        );
        i = i + 1;
    }
    out
}

/// The three ramps that `bytes` holds, back to back.
pub fn read_ramps(bytes: &Vec<u8>, size: u32, little_endian: bool) -> (r: Result<
    GammaUpdate,
    GammaError,
>)
    ensures
        match r {
            Ok(update) => size > 0 && bytes@.len() >= table_len(size) && holds_ramps(
                update,
                bytes@,
                size as int,
                little_endian,
            ),
            Err(e) => refused(e, bytes@, size),
        },
{
    if size == 0 {
        return Err(GammaError::Unsupported);
    }
    if (bytes.len() as u64) < size as u64 * 6 {
        return Err(GammaError::Short);
    }
    let n: usize = size as usize;
    Ok(
        GammaUpdate::Program(
            read_ramp(bytes, n, 0, little_endian),
            read_ramp(bytes, n, 1, little_endian),
            read_ramp(bytes, n, 2, little_endian),
        ),
    )
}

impl GammaControl {
    pub fn new(size: u32) -> (r: Self)
        ensures
            r.size == size,
            r.active is None,
            r.pending is None,
    {
        GammaControl { size, active: None, pending: None }
    }

    /// The change that the backend has to make now, once.
    pub fn take_pending(&mut self) -> (r: Option<GammaUpdate>)
        ensures
            r == old(self).pending,
            final(self).pending is None,
            final(self).size == old(self).size,
            final(self).active == old(self).active,
    {
        self.pending.take()
    }

    /// The client with the control `id` asks for the table. There is one owner:
    /// the result is who lost it.
    pub fn get_control(&mut self, id: u64) -> (evicted: Option<u64>)
        ensures
            evicted == old(self).active,
            final(self).active == Some(id),
            final(self).size == old(self).size,
            final(self).pending == old(self).pending,
    {
        let evicted: Option<u64> = self.active;
        self.active = Some(id);
        evicted
    }

    /// A client uploads a table. A refused one changes nothing, and is a
    /// protocol error.
    pub fn set_gamma(&mut self, bytes: &Vec<u8>, little_endian: bool) -> (r: Result<(), GammaError>)
        ensures
            final(self).size == old(self).size,
            final(self).active == old(self).active,
            match r {
                Ok(_) => old(self).size > 0 && bytes@.len() >= table_len(old(self).size)
                    && final(self).pending is Some && holds_ramps(
                    final(self).pending->0,
                    bytes@,
                    old(self).size as int,
                    little_endian,
                ),
                Err(e) => refused(e, bytes@, old(self).size) && final(self).pending == old(self).pending,
            },
    {
        match read_ramps(bytes, self.size, little_endian) {
            Ok(update) => {
                self.pending = Some(update);
                Ok(())
            },
            Err(e) => Err(e),
        }
    }

    /// The control `id` is gone. When it owned the table, what was there before
    /// is restored.
    pub fn destroyed(&mut self, id: u64)
        ensures
            final(self).size == old(self).size,
            if old(self).active == Some(id) {
                final(self).active is None && final(self).pending == Some(GammaUpdate::Reset)
            } else {
                final(self).active == old(self).active && final(self).pending == old(self).pending
            },
    {
        let owns: bool = match self.active {
            Some(active) => active == id,
            None => false,
        };
        if owns {
            self.active = None;
            self.pending = Some(GammaUpdate::Reset);
        }
    }
}

/// The two bytes that stand for `v`.
pub open spec fn entry_bytes(v: u16, little_endian: bool) -> Seq<u8> {
    let low = (v % 256) as u8;
    let high = (v / 256) as u8;
    if little_endian {
        seq![low, high]
    } else {
        seq![high, low]
    }
}

/// An entry reads back as it was written.
pub proof fn law_entry_reads_back(v: u16, little_endian: bool)
    ensures
        entry(
            entry_bytes(v, little_endian)[0],
            entry_bytes(v, little_endian)[1],
            little_endian,
        ) == v,
{
}

/// A table that was written as three ramps back to back is programmed as those
/// ramps: red first, then green, then blue, each entry in the byte order of the
/// machine.
pub proof fn law_uploaded_ramps_are_programmed(
    control: &mut GammaControl,
    bytes: &Vec<u8>,
    little_endian: bool,
    r: Result<(), GammaError>,
    table: Seq<u16>,
)
    requires
        call_ensures(GammaControl::set_gamma, (control, bytes, little_endian), r),
        old(control).size > 0,
        table.len() == 3 * old(control).size,
        bytes@.len() == 2 * table.len(),
        forall|i: int|
            #![trigger table[i]]
            0 <= i < table.len() ==> if little_endian {
                bytes@[2 * i] == table[i] % 256 && bytes@[2 * i + 1] == table[i] / 256
            } else {
                bytes@[2 * i] == table[i] / 256 && bytes@[2 * i + 1] == table[i] % 256
            },
    ensures
        r is Ok,
        match final(control).pending {
            Some(GammaUpdate::Program(red, green, blue)) => red@ + green@ + blue@ == table && red@.len()
                == old(control).size && green@.len() == old(control).size,
            _ => false,
        },
        final(control).active == old(control).active,
{
    let n = old(control).size as int;
    assert(r is Ok);
    match final(control).pending {
        Some(GammaUpdate::Program(red, green, blue)) => {
            assert forall|i: int| 0 <= i < 3 * n implies (red@ + green@ + blue@)[i] == table[i] by {
                let v = table[i];
                let a = bytes@[2 * i];
                let b = bytes@[2 * i + 1];
                assert(v == 256 * (v / 256) + v % 256);
                assert(entry(a, b, little_endian) == v);
                if i < n {
                    assert(red@[i] == entry(a, b, little_endian));
                } else if i < 2 * n {
                    assert((1 * n + (i - n)) * 2 == 2 * i);
                    assert(green@[i - n] == entry(a, b, little_endian));
                } else {
                    assert((2 * n + (i - 2 * n)) * 2 == 2 * i);
                    assert(blue@[i - 2 * n] == entry(a, b, little_endian));
                }
            }
            assert(red@ + green@ + blue@ =~= table);
        },
        _ => {},
    }
}

/// A table is refused exactly if the panel has none, or if the bytes are too few
/// for it, and then nothing changes.
pub proof fn law_short_table_is_refused(
    control: &mut GammaControl,
    bytes: &Vec<u8>,
    little_endian: bool,
    r: Result<(), GammaError>,
)
    requires
        call_ensures(GammaControl::set_gamma, (control, bytes, little_endian), r),
    ensures
        r == Err::<(), GammaError>(GammaError::Unsupported) <==> old(control).size == 0,
        r == Err::<(), GammaError>(GammaError::Short) <==> old(control).size > 0 && bytes@.len() < 6 * old(control).size,
        r is Err ==> final(control).pending == old(control).pending,
{
}

/// The table has one owner: whoever asks last. Only its end restores the old
/// table, and a change is handed out once.
pub proof fn law_table_goes_back_with_its_owner(
    a: &mut GammaControl,
    b: &mut GammaControl,
    c: &mut GammaControl,
    d: &mut GammaControl,
    id: u64,
    other: u64,
    evicted: Option<u64>,
    change: Option<GammaUpdate>,
    again: Option<GammaUpdate>,
)
    requires
        call_ensures(GammaControl::get_control, (a, id), evicted),
        *final(a) == *old(b),
        call_ensures(GammaControl::destroyed, (b, other), ()),
        *final(b) == *old(c),
        call_ensures(GammaControl::take_pending, (c,), change),
        *final(c) == *old(d),
        call_ensures(GammaControl::take_pending, (d,), again),
    ensures
        evicted == old(a).active,
        other == id ==> change == Some(GammaUpdate::Reset) && final(d).active is None,
        other != id ==> change == old(a).pending && final(d).active == Some(id),
        again is None,
{
}

/// A new owner takes the table over as it is: neither its size nor a change that is
/// still to be made is touched.
pub proof fn law_new_owner_changes_no_table(
    size: u32,
    fresh: GammaControl,
    control: &mut GammaControl,
    id: u64,
    evicted: Option<u64>,
)
    requires
        call_ensures(GammaControl::new, (size,), fresh),
        call_ensures(GammaControl::get_control, (control, id), evicted),
    ensures
        fresh.size == size && fresh.active is None && fresh.pending is None,
        evicted == old(control).active,
        final(control).active == Some(id),
        final(control).size == old(control).size,
        final(control).pending == old(control).pending,
{
}

/// Bytes are read as three ramps of the size of the table where there are enough of
/// them; bytes that follow count for nothing.
pub proof fn law_ramps_are_read_in_their_order(
    bytes: &Vec<u8>,
    size: u32,
    little_endian: bool,
    r: Result<GammaUpdate, GammaError>,
    i: int,
)
    requires
        call_ensures(read_ramps, (bytes, size, little_endian), r),
        0 <= i < size,
    ensures
        r is Ok <==> size > 0 && bytes@.len() >= 6 * size,
        r matches Ok(GammaUpdate::Program(red, green, blue)) ==> red@.len() == size && green@.len()
            == size && blue@.len() == size,
        r matches Ok(GammaUpdate::Program(red, green, blue)) ==> (little_endian ==> red@[i] == bytes@[2
            * i] + 256 * bytes@[2 * i + 1] && green@[i] == bytes@[2 * size + 2 * i] + 256 * bytes@[2
            * size + 2 * i + 1] && blue@[i] == bytes@[4 * size + 2 * i] + 256 * bytes@[4 * size + 2 * i
            + 1]),
        r matches Ok(GammaUpdate::Program(red, green, blue)) ==> (!little_endian ==> red@[i] == 256
            * bytes@[2 * i] + bytes@[2 * i + 1] && green@[i] == 256 * bytes@[2 * size + 2 * i]
            + bytes@[2 * size + 2 * i + 1] && blue@[i] == 256 * bytes@[4 * size + 2 * i] + bytes@[4
            * size + 2 * i + 1]),
        r is Ok ==> r->Ok_0 is Program,
{
    let n = size as int;
    assert((0 * n + i) * 2 == 2 * i);
    assert((1 * n + i) * 2 == 2 * n + 2 * i);
    assert((2 * n + i) * 2 == 4 * n + 2 * i);
}

} // verus!
