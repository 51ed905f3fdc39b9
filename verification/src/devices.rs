//! Lists of capture devices as the controllers hand them out.

use vstd::prelude::*;

verus! {

/// A device by identifier and display name.
#[derive(Debug)]
pub struct AudioDeviceInfo {
    /// Opaque identifier, accepted by the controllers.
    pub id: String,
    /// Name for display.
    pub name: String,
}

/// A device as a pair of identifier and name.
pub type DeviceEntry = (Seq<char>, Seq<char>);

/// The entries of a list of devices.
pub open spec fn entries(devices: Seq<(String, String)>) -> Seq<DeviceEntry> {
    devices.map_values(|d: (String, String)| (d.0@, d.1@))
}

/// The entries of a list of device descriptions.
pub open spec fn info_entries(infos: Seq<AudioDeviceInfo>) -> Seq<DeviceEntry> {
    infos.map_values(|d: AudioDeviceInfo| (d.id@, d.name@))
}

/// Whether an identifier names a particular device: it is neither empty
/// nor the word for the default device.
pub open spec fn names_device(id: Seq<char>) -> bool {
    id.len() > 0 && id != "default"@
}

/// The device a caller asked for, if it asked for a particular one.
pub fn requested_device(device_id: Option<String>) -> (request: Option<String>)
    ensures
        request == match device_id {
            Some(id) => if names_device(id@) {
                Some(id)
            } else {
                None
            },
            None => None,
        },
{
    match device_id {
        Some(id) => {
            let default_id: String = "default".to_owned();
            if id.as_str().is_empty() || id == default_id {
                None
            } else {
                Some(id)
            }
        },
        None => None,
    }
}

/// The list of input devices: the default microphone first, then each
/// device under its name, which is also its identifier.
pub open spec fn spec_input_devices(names: Seq<String>) -> Seq<DeviceEntry> {
    seq![("default"@, "Default Microphone"@)] + names.map_values(|n: String| (n@, n@))
}

/// Builds the list of input devices from the names of the devices found.
pub fn input_device_list(names: &Vec<String>) -> (list: Vec<(String, String)>)
    ensures
        entries(list@) == spec_input_devices(names@),
{
    let mut list: Vec<(String, String)> = Vec::new();
    list.push(("default".to_owned(), "Default Microphone".to_owned()));
    assert(entries(list@) =~= seq![("default"@, "Default Microphone"@)]);
    let mut i: usize = 0;
    while i < names.len()
        invariant
            i <= names@.len(),
            entries(list@) == seq![("default"@, "Default Microphone"@)] + names@.take(
                i as int,
            ).map_values(|n: String| (n@, n@)),
        decreases names@.len() - i,
    {
        let ghost before = entries(list@);
        let name: String = names[i].clone();
        list.push((name.clone(), name));
        assert(entries(list@) =~= before.push((names@[i as int]@, names@[i as int]@)));
        assert(names@.take(i + 1).map_values(|n: String| (n@, n@)) =~= names@.take(
            i as int,
        ).map_values(|n: String| (n@, n@)).push((names@[i as int]@, names@[i as int]@)));
        i += 1;
    }
    assert(names@.take(names@.len() as int) =~= names@);
    list
}

/// Keeps the devices that have an identifier.
pub fn identified_devices(found: &Vec<(String, String)>) -> (list: Vec<(String, String)>)
    ensures
        entries(list@) == entries(found@).filter(|d: DeviceEntry| d.0.len() > 0),
{
    let ghost keep = |d: DeviceEntry| d.0.len() > 0;
    let mut list: Vec<(String, String)> = Vec::new();
    let mut i: usize = 0;
    assert(entries(found@).take(0) =~= Seq::<DeviceEntry>::empty());
    assert(entries(list@) =~= Seq::<DeviceEntry>::empty());
    while i < found.len()
        invariant
            i <= found@.len(),
            keep == |d: DeviceEntry| d.0.len() > 0,
            entries(list@) == entries(found@).take(i as int).filter(keep),
        decreases found@.len() - i,
    {
        let ghost before = entries(list@);
        let ghost prefix = entries(found@).take(i as int);
        let ghost entry = entries(found@)[i as int];
        proof {
            assert(entries(found@).take(i + 1) =~= prefix.push(entry));
            assert(prefix.push(entry).drop_last() =~= prefix);
            reveal_with_fuel(Seq::filter, 2);
        }
        if !found[i].0.as_str().is_empty() {
            list.push((found[i].0.clone(), found[i].1.clone()));
            assert(entries(list@) =~= before.push(entry));
        }
        i += 1;
    }
    assert(entries(found@).take(found@.len() as int) =~= entries(found@));
    list
}

/// A device as the system reports it.
#[derive(Debug)]
pub struct FoundDevice {
    /// Identifier of the device; empty if the system gave none.
    pub id: String,
    /// Name for display.
    pub name: String,
    /// Number of buffers of its output stream; zero if it has none.
    pub output_buffers: usize,
}

/// A [`FoundDevice`] with its texts as sequences.
pub struct FoundEntry {
    /// Identifier of the device.
    pub id: Seq<char>,
    /// Name for display.
    pub name: Seq<char>,
    /// Number of buffers of its output stream.
    pub output_buffers: usize,
}

impl View for FoundDevice {
    type V = FoundEntry;

    open spec fn view(&self) -> FoundEntry {
        FoundEntry { id: self.id@, name: self.name@, output_buffers: self.output_buffers }
    }
}

/// Whether a device belongs on the list of output devices: it has an
/// output buffer and an identifier.
pub open spec fn is_output(device: FoundEntry) -> bool {
    device.output_buffers > 0 && device.id.len() > 0
}

/// The list of output devices among the devices found: those that have an
/// output buffer and an identifier, in the order in which they were found.
pub open spec fn spec_output_devices(found: Seq<FoundDevice>) -> Seq<DeviceEntry> {
    found.map_values(|d: FoundDevice| d@).filter(|d: FoundEntry| is_output(d)).map_values(
        |d: FoundEntry| (d.id, d.name),
    )
}

/// Builds the list of output devices from the devices found.
pub fn output_device_list(found: &Vec<FoundDevice>) -> (list: Vec<(String, String)>)
    ensures
        entries(list@) == spec_output_devices(found@),
{
    let ghost keep = |d: FoundEntry| is_output(d);
    let ghost pair = |d: FoundEntry| (d.id, d.name);
    let ghost all = found@.map_values(|d: FoundDevice| d@);
    let mut list: Vec<(String, String)> = Vec::new();
    let mut i: usize = 0;
    assert(all.take(0) =~= Seq::<FoundEntry>::empty());
    assert(entries(list@) =~= all.take(0).filter(keep).map_values(pair));
    while i < found.len()
        invariant
            i <= found@.len(),
            keep == |d: FoundEntry| is_output(d),
            pair == |d: FoundEntry| (d.id, d.name),
            all == found@.map_values(|d: FoundDevice| d@),
            entries(list@) == all.take(i as int).filter(keep).map_values(pair),
        decreases found@.len() - i,
    {
        let ghost before = entries(list@);
        let ghost prefix = all.take(i as int);
        let ghost entry = all[i as int];
        proof {
            assert(all.take(i + 1) =~= prefix.push(entry));
            assert(prefix.push(entry).drop_last() =~= prefix);
            reveal_with_fuel(Seq::filter, 2);
        }
        if found[i].output_buffers > 0 && !found[i].id.as_str().is_empty() {
            list.push((found[i].id.clone(), found[i].name.clone()));
            assert(entries(list@) =~= before.push(pair(entry)));
            assert(prefix.filter(keep).push(entry).map_values(pair) =~= prefix.filter(
                keep,
            ).map_values(pair).push(pair(entry)));
        }
        i += 1;
    }
    assert(all.take(found@.len() as int) =~= all);
    list
}

/// The input device to open for a caller's identifier: the first device
/// of that name, if the identifier names a particular device and one of
/// that name exists. Otherwise the default device is to be opened.
pub fn select_input_device(names: &Vec<String>, device_id: &Option<String>) -> (choice: Option<
    usize,
>)
    ensures
        match choice {
            Some(i) => {
                &&& device_id is Some
                &&& names_device(device_id->Some_0@)
                &&& i < names@.len()
                &&& names@[i as int]@ == device_id->Some_0@
                &&& forall|j: int| 0 <= j < i ==> (#[trigger] names@[j])@ != device_id->Some_0@
            },
            None => {
                ||| device_id is None
                ||| !names_device(device_id->Some_0@)
                ||| forall|j: int|
                    0 <= j < names@.len() ==> (#[trigger] names@[j])@ != device_id->Some_0@
            },
        },
{
    match device_id {
        Some(id) => {
            let default_id: String = "default".to_owned();
            if id.as_str().is_empty() || *id == default_id {
                return None;
            }
            let mut i: usize = 0;
            while i < names.len()
                invariant
                    i <= names@.len(),
                    *device_id == Some(*id),
                    names_device(id@),
                    forall|j: int| 0 <= j < i ==> (#[trigger] names@[j])@ != id@,
                decreases names@.len() - i,
            {
                if names[i] == *id {
                    return Some(i);
                }
                i += 1;
            }
            None
        },
        None => None,
    }
}

/// The device list handed to the caller: the devices if the listing
/// succeeded, nothing if it failed.
pub fn device_infos<E>(listing: Result<Vec<(String, String)>, E>) -> (infos: Vec<AudioDeviceInfo>)
    ensures
        info_entries(infos@) == match listing {
            Ok(devices) => entries(devices@),
            Err(_) => Seq::<DeviceEntry>::empty(),
        },
{
    let mut infos: Vec<AudioDeviceInfo> = Vec::new();
    match listing {
        Ok(devices) => {
            let mut i: usize = 0;
            assert(info_entries(infos@) =~= entries(devices@).take(0));
            while i < devices.len()
                invariant
                    i <= devices@.len(),
                    info_entries(infos@) == entries(devices@).take(i as int),
                decreases devices@.len() - i,
            {
                let ghost before = info_entries(infos@);
                infos.push(AudioDeviceInfo { id: devices[i].0.clone(), name: devices[i].1.clone() });
                assert(info_entries(infos@) =~= before.push(entries(devices@)[i as int]));
                assert(entries(devices@).take(i + 1) =~= before.push(entries(devices@)[i as int]));
                i += 1;
            }
            assert(entries(devices@).take(devices@.len() as int) =~= entries(devices@));
        },
        Err(_) => {
            assert(info_entries(infos@) =~= Seq::<DeviceEntry>::empty());
        },
    }
    infos
}

} // verus!
