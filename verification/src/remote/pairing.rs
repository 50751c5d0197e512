//! Paired-device store over the host database. Device keys are stored
//! encrypted at rest by the database; here they travel as standard base64.
use vstd::prelude::*;

use crate::codec::{base64_standard, base64_standard_decode, base64_standard_decoded, base64_standard_encode};
use crate::text::str_eq;

verus! {

pub struct PairedDevice {
    pub device_id: String,
    pub device_label: String,
    /// Base64 of the 32-byte device key.
    pub device_key_b64: String,
    pub created_at: u64,
}

/// A row of the paired-devices table, without its key.
pub struct DeviceRow {
    pub device_id: String,
    pub device_label: String,
    pub created_at: u64,
}

/// The database operations the store uses. Each reports a failure as
/// `Err` with the database's message.
pub trait DeviceDatabase {
    fn get_paired_device_key(&self, device_id: &str) -> Result<Option<Vec<u8>>, String>;

    fn list_paired_devices(&self) -> Result<Vec<DeviceRow>, String>;

    fn save_paired_device(&self, device_id: &str, device_label: &str, key: &[u8], created_at: u64) -> Result<(), String>;

    fn remove_paired_device(&self, device_id: &str) -> Result<(), String>;

    fn touch_paired_device(&self, device_id: &str, now: u64) -> Result<(), String>;
}

/// The device of a row, with its key.
pub fn paired_device(row: DeviceRow, key: &[u8]) -> (r: PairedDevice)
    ensures
        r.device_id == row.device_id,
        r.device_label == row.device_label,
        r.device_key_b64@ == base64_standard(key@),
        r.created_at == row.created_at,
{
    PairedDevice {
        device_id: row.device_id,
        device_label: row.device_label,
        device_key_b64: base64_standard_encode(key),
        created_at: row.created_at,
    }
}

/// Index of the first row for `device_id`.
pub fn find_row(rows: &Vec<DeviceRow>, device_id: &str) -> (r: Option<usize>)
    ensures
        match r {
            Some(i) => i < rows@.len() && rows@[i as int].device_id@ == device_id@
                && forall|j: int| 0 <= j < i ==> (#[trigger] rows@[j]).device_id@ != device_id@,
            None => forall|j: int| 0 <= j < rows@.len() ==> (#[trigger] rows@[j]).device_id@ != device_id@,
        },
{
    let mut i: usize = 0;
    while i < rows.len()
        invariant
            i <= rows@.len(),
            forall|j: int| 0 <= j < i ==> (#[trigger] rows@[j]).device_id@ != device_id@,
        decreases rows@.len() - i,
    {
        if str_eq(rows[i].device_id.as_str(), device_id) {
            return Some(i);
        }
        i += 1;
    }
    None
}

/// `r` is the device `device_id` found from its key lookup (`key`) and the
/// table's rows: none when it has no key; else the first row for it, with
/// the key in base64, or none when no row has that id.
pub open spec fn describes_lookup(key: Option<Seq<u8>>, rows: Seq<DeviceRow>, device_id: Seq<char>, r: Option<PairedDevice>) -> bool {
    match key {
        None => r is None,
        Some(k) => match r {
            None => forall|j: int| 0 <= j < rows.len() ==> (#[trigger] rows[j]).device_id@ != device_id,
            Some(d) => exists|i: int| {
                &&& 0 <= i < rows.len()
                &&& (#[trigger] rows[i]).device_id@ == device_id
                &&& forall|j: int| 0 <= j < i ==> (#[trigger] rows[j]).device_id@ != device_id
                &&& d.device_id == rows[i].device_id
                &&& d.device_label == rows[i].device_label
                &&& d.created_at == rows[i].created_at
                &&& d.device_key_b64@ == base64_standard(k)
            },
        },
    }
}

/// The device `device_id`, from its key lookup and the table's rows: none
/// when it has no key or no row; else the first row for it, with the key.
pub fn device_from_lookup(key: Option<Vec<u8>>, rows: Vec<DeviceRow>, device_id: &str) -> (r: Option<PairedDevice>)
    ensures
        describes_lookup(
            match key {
                Some(k) => Some(k@),
                None => None,
            },
            rows@,
            device_id@,
            r,
        ),
{
    let k = match key {
        Some(k) => k,
        None => return None,
    };
    match find_row(&rows, device_id) {
        Some(i) => {
            let ghost row_i = rows@[i as int];
            let mut rows = rows;
            let row = rows.remove(i);
            let d = paired_device(row, k.as_slice());
            proof {
                assert(row == row_i);
            }
            Some(d)
        },
        None => None,
    }
}

/// A device as plain values: id, label, key text, pairing time.
pub open spec fn device_view(d: PairedDevice) -> (Seq<char>, Seq<char>, Seq<char>, u64) {
    (d.device_id@, d.device_label@, d.device_key_b64@, d.created_at)
}

pub open spec fn devices_view(ds: Seq<PairedDevice>) -> Seq<(Seq<char>, Seq<char>, Seq<char>, u64)> {
    ds.map_values(|d: PairedDevice| device_view(d))
}

/// The devices of the rows whose key was found, in row order, each with
/// its key in base64.
pub open spec fn devices_of_rows(rows: Seq<DeviceRow>, keys: Seq<Option<Vec<u8>>>) -> Seq<(Seq<char>, Seq<char>, Seq<char>, u64)>
    decreases rows.len(),
{
    if rows.len() == 0 {
        Seq::empty()
    } else {
        let n = rows.len() - 1;
        devices_of_rows(rows.drop_last(), keys) + match keys[n] {
            Some(k) => seq![(rows[n].device_id@, rows[n].device_label@, base64_standard(k@), rows[n].created_at)],
            None => Seq::empty(),
        }
    }
}

/// The devices of `rows` whose key lookup (`keys`, one per row) found a
/// key, in row order.
pub fn devices_from_rows(rows: &Vec<DeviceRow>, keys: &Vec<Option<Vec<u8>>>) -> (r: Vec<PairedDevice>)
    requires
        keys@.len() == rows@.len(),
    ensures
        devices_view(r@) == devices_of_rows(rows@, keys@),
        forall|i: int| 0 <= i < r@.len() ==> (#[trigger] base64_standard_decoded(r@[i].device_key_b64@)) is Some,
{
    let mut out: Vec<PairedDevice> = Vec::new();
    let mut i: usize = 0;
    while i < rows.len()
        invariant
            i <= rows@.len(),
            keys@.len() == rows@.len(),
            devices_view(out@) == devices_of_rows(rows@.take(i as int), keys@),
            forall|j: int| 0 <= j < out@.len() ==> (#[trigger] base64_standard_decoded(out@[j].device_key_b64@)) is Some,
        decreases rows@.len() - i,
    {
        proof {
            assert(rows@.take(i + 1).drop_last() =~= rows@.take(i as int));
            assert(rows@.take(i + 1)[i as int] == rows@[i as int]);
        }
        match &keys[i] {
            Some(k) => {
                let row = &rows[i];
                let d = PairedDevice {
                    device_id: row.device_id.clone(),
                    device_label: row.device_label.clone(),
                    device_key_b64: base64_standard_encode(k.as_slice()),
                    created_at: row.created_at,
                };
                let ghost prev = out@;
                out.push(d);
                proof {
                    assert(devices_view(out@) =~= devices_view(prev).push(device_view(d)));
                    assert(forall|j: int| 0 <= j < prev.len() ==> out@[j] == prev[j]);
                }
            },
            None => {},
        }
        proof {
            assert(devices_view(out@) =~= devices_of_rows(rows@.take(i + 1), keys@));
        }
        i += 1;
    }
    proof {
        assert(rows@.take(rows@.len() as int) =~= rows@);
    }
    out
}

/// Number of `true` in `s`.
pub open spec fn count_true(s: Seq<bool>) -> nat
    decreases s.len(),
{
    if s.len() == 0 {
        0
    } else {
        count_true(s.drop_last()) + if s.last() {
            1nat
        } else {
            0nat
        }
    }
}

/// How many of the removals succeeded.
pub fn count_removed(outcomes: &Vec<bool>) -> (r: usize)
    ensures
        r == count_true(outcomes@),
{
    let mut n: usize = 0;
    let mut i: usize = 0;
    while i < outcomes.len()
        invariant
            i <= outcomes@.len(),
            n == count_true(outcomes@.take(i as int)),
            n <= i,
        decreases outcomes@.len() - i,
    {
        proof {
            assert(outcomes@.take(i + 1).drop_last() == outcomes@.take(i as int));
        }
        if outcomes[i] {
            n += 1;
        }
        i += 1;
    }
    proof {
        assert(outcomes@.take(outcomes@.len() as int) == outcomes@);
    }
    n
}

/// How many of the answers are `Ok`.
pub open spec fn ok_count(outs: Seq<Result<(), String>>) -> nat {
    count_true(outs.map_values(|o: Result<(), String>| o is Ok))
}

/// `key` is what the database's answer to a key lookup for device `id`
/// gives: the key when it found one, else nothing.
pub open spec fn key_answered<D: DeviceDatabase>(db: D, id: Seq<char>, key: Option<Vec<u8>>) -> bool {
    exists|s: &str, o: Result<Option<Vec<u8>>, String>| {
        &&& s@ == id
        &&& #[trigger] call_ensures(D::get_paired_device_key, (&db, s), o)
        &&& key == match o {
            Ok(Some(k)) => Some(k),
            _ => None,
        }
    }
}

/// `o` is an answer the database gives to removing the device `id`.
pub open spec fn removal_answered<D: DeviceDatabase>(db: D, id: Seq<char>, o: Result<(), String>) -> bool {
    exists|s: &str| s@ == id && #[trigger] call_ensures(D::remove_paired_device, (&db, s), o)
}

/// Stores a device in the database: a key that is not valid standard
/// base64 stores nothing (`None`); otherwise the device's id, label,
/// decoded key and pairing time are handed to the database, whose answer
/// is returned.
pub fn store_device<D: DeviceDatabase>(db: &D, device: PairedDevice) -> (r: Option<Result<(), String>>)
    ensures
        r is None <==> base64_standard_decoded(device.device_key_b64@) is None,
        r matches Some(o) ==> exists|id: &str, label: &str, key: &[u8]| {
            &&& id@ == device.device_id@
            &&& label@ == device.device_label@
            &&& Some(key@) == base64_standard_decoded(device.device_key_b64@)
            &&& #[trigger] call_ensures(D::save_paired_device, (db, id, label, key, device.created_at), o)
        },
{
    let key = match base64_standard_decode(device.device_key_b64.as_str()) {
        Some(k) => k,
        None => return None,
    };
    let id = device.device_id.as_str();
    let label = device.device_label.as_str();
    let key_bytes = key.as_slice();
    let o = db.save_paired_device(id, label, key_bytes, device.created_at);
    proof {
        assert(call_ensures(D::save_paired_device, (db, id, label, key_bytes, device.created_at), o));
    }
    Some(o)
}

/// Paired devices, kept in the host database.
pub struct PairingStore<D: DeviceDatabase> {
    db: D,
}

impl<D: DeviceDatabase> PairingStore<D> {
    /// The database the store reads and writes.
    pub closed spec fn database(&self) -> D {
        self.db
    }

    pub fn new(db: D) -> (s: Self)
        ensures
            s.database() == db,
    {
        PairingStore { db }
    }

    /// The device `device_id` with its key, when the database has both: the
    /// database is asked for the key of `device_id`, then (when it has one)
    /// for its rows, and the device is looked up from those answers.
    pub fn get(&self, device_id: &str) -> (r: Option<PairedDevice>)
        ensures
            r matches Some(d) ==> d.device_id@ == device_id@,
            exists|k: Result<Option<Vec<u8>>, String>| #[trigger] call_ensures(D::get_paired_device_key, (&self.database(), device_id), k)
                && match k {
                Ok(Some(key)) => exists|l: Result<Vec<DeviceRow>, String>| #[trigger] call_ensures(D::list_paired_devices, (&self.database(),), l)
                    && match l {
                    Ok(rows) => describes_lookup(Some(key@), rows@, device_id@, r),
                    Err(_) => r is None,
                },
                _ => r is None,
            },
    {
        let k = self.db.get_paired_device_key(device_id);
        proof {
            assert(call_ensures(D::get_paired_device_key, (&self.database(), device_id), k));
        }
        let key = match k {
            Ok(Some(key)) => key,
            _ => return None,
        };
        let l = self.db.list_paired_devices();
        proof {
            assert(call_ensures(D::list_paired_devices, (&self.database(),), l));
        }
        let rows = match l {
            Ok(rows) => rows,
            Err(_) => return None,
        };
        let r = device_from_lookup(Some(key), rows, device_id);
        r
    }

    /// Stores a device; a key that is not valid base64 is not stored (see
    /// [`store_device`], which says what is handed to the database).
    pub fn insert(&self, device: PairedDevice) {
        let _ = store_device(&self.db, device);
    }

    /// Whether the database removed the device: its answer to removing
    /// `device_id`, as given.
    pub fn remove(&self, device_id: &str) -> (r: bool)
        ensures
            exists|o: Result<(), String>| #[trigger] call_ensures(D::remove_paired_device, (&self.database(), device_id), o) && r == o is Ok,
    {
        let o = self.db.remove_paired_device(device_id);
        let r = o.is_ok();
        proof {
            assert(call_ensures(D::remove_paired_device, (&self.database(), device_id), o));
        }
        r
    }

    /// Drops every paired device; returns how many were removed. Used when
    /// the host id rotates: a new id invalidates every pairing's proof.
    /// The ids handed to the database are those of the rows it listed, in
    /// order; a failed listing removes nothing and gives 0.
    pub fn clear_all(&self) -> (r: usize)
        ensures
            exists|l: Result<Vec<DeviceRow>, String>| #[trigger] call_ensures(D::list_paired_devices, (&self.database(),), l)
                && match l {
                Err(_) => r == 0,
                Ok(rows) => exists|outs: Seq<Result<(), String>>| {
                    &&& outs.len() == rows@.len()
                    &&& forall|j: int| 0 <= j < rows@.len() ==> #[trigger] removal_answered(self.database(), rows@[j].device_id@, outs[j])
                    &&& r == #[trigger] ok_count(outs)
                },
            },
    {
        let listing = self.db.list_paired_devices();
        proof {
            assert(call_ensures(D::list_paired_devices, (&self.database(),), listing));
        }
        let rows = match listing {
            Ok(rows) => rows,
            Err(_) => return 0,
        };
        let mut outcomes: Vec<bool> = Vec::new();
        let ghost mut outs: Seq<Result<(), String>> = Seq::empty();
        let mut i: usize = 0;
        while i < rows.len()
            invariant
                i <= rows@.len(),
                outcomes@.len() == i,
                outs.len() == i,
                outcomes@ == outs.map_values(|o: Result<(), String>| o is Ok),
                forall|j: int| 0 <= j < i ==> #[trigger] removal_answered(self.database(), rows@[j].device_id@, outs[j]),
            decreases rows@.len() - i,
        {
            let id = rows[i].device_id.as_str();
            let o = self.db.remove_paired_device(id);
            proof {
                assert(call_ensures(D::remove_paired_device, (&self.database(), id), o));
                assert(removal_answered(self.database(), rows@[i as int].device_id@, o));
                outs = outs.push(o);
            }
            outcomes.push(o.is_ok());
            proof {
                assert(outcomes@ =~= outs.map_values(|o: Result<(), String>| o is Ok));
            }
            i += 1;
        }
        let n = count_removed(&outcomes);
        proof {
            assert(n == ok_count(outs));
        }
        n
    }

    /// Records that the device was just seen; a failure is ignored.
    pub fn touch(&self, device_id: &str, now: u64) {
        let _ = self.db.touch_paired_device(device_id, now);
    }

    /// Every paired device whose key the database returns, in table order:
    /// the database is asked for its rows, then for the key of each row's
    /// device, and the devices are those rows whose key was found.
    pub fn list(&self) -> (r: Vec<PairedDevice>)
        ensures
            forall|i: int| 0 <= i < r@.len() ==> (#[trigger] base64_standard_decoded(r@[i].device_key_b64@)) is Some,
            exists|l: Result<Vec<DeviceRow>, String>| #[trigger] call_ensures(D::list_paired_devices, (&self.database(),), l)
                && match l {
                Err(_) => r@.len() == 0,
                Ok(rows) => exists|keys: Seq<Option<Vec<u8>>>| {
                    &&& keys.len() == rows@.len()
                    &&& forall|j: int| 0 <= j < rows@.len() ==> #[trigger] key_answered(self.database(), rows@[j].device_id@, keys[j])
                    &&& devices_view(r@) == #[trigger] devices_of_rows(rows@, keys)
                },
            },
    {
        let l = self.db.list_paired_devices();
        proof {
            assert(call_ensures(D::list_paired_devices, (&self.database(),), l));
        }
        let rows = match l {
            Ok(rows) => rows,
            Err(_) => return Vec::new(),
        };
        let mut keys: Vec<Option<Vec<u8>>> = Vec::new();
        let mut i: usize = 0;
        while i < rows.len()
            invariant
                i <= rows@.len(),
                keys@.len() == i,
                forall|j: int| 0 <= j < i ==> #[trigger] key_answered(self.database(), rows@[j].device_id@, keys@[j]),
            decreases rows@.len() - i,
        {
            let id = rows[i].device_id.as_str();
            let o = self.db.get_paired_device_key(id);
            proof {
                assert(call_ensures(D::get_paired_device_key, (&self.database(), id), o));
            }
            let key = match o {
                Ok(Some(k)) => Some(k),
                _ => None,
            };
            proof {
                assert(key_answered(self.database(), rows@[i as int].device_id@, key));
            }
            keys.push(key);
            i += 1;
        }
        devices_from_rows(&rows, &keys)
    }
}

} // verus!
