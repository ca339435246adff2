use vstd::prelude::*;
use vstd::slice::slice_to_vec;

verus! {

/// The slot of each cube face in a cubemap under construction.
pub const LEFT: usize = 0;
pub const RIGHT: usize = 1;
pub const TOP: usize = 2;
pub const BOTTOM: usize = 3;
pub const FRONT: usize = 4;
pub const BACK: usize = 5;

/// The slot of the face whose file is called `name`, if `name` is a face.
pub open spec fn face_slot(name: Seq<char>) -> Option<int> {
    if name == "Left"@ {
        Some(LEFT as int)
    } else if name == "Right"@ {
        Some(RIGHT as int)
    } else if name == "Top"@ {
        Some(TOP as int)
    } else if name == "Bottom"@ {
        Some(BOTTOM as int)
    } else if name == "Front"@ {
        Some(FRONT as int)
    } else if name == "Back"@ {
        Some(BACK as int)
    } else {
        None
    }
}

/// The cube map texture target that the face in slot `i` is uploaded to:
/// left to negative Y, right to positive Y, top to positive Z, bottom to
/// negative X, front to negative Z and back to positive X.
pub open spec fn face_target(i: int) -> Option<u32> {
    if i == LEFT {
        Some(0x8518u32)
    } else if i == RIGHT {
        Some(0x8517u32)
    } else if i == TOP {
        Some(0x8519u32)
    } else if i == BOTTOM {
        Some(0x8516u32)
    } else if i == FRONT {
        Some(0x851Au32)
    } else if i == BACK {
        Some(0x8515u32)
    } else {
        None
    }
}

/// Whether each of the six faces has some bytes.
pub open spec fn all_faces_present(faces: Seq<Seq<u8>>) -> bool {
    forall|i: int| 0 <= i < 6 ==> #[trigger] faces[i].len() > 0
}

/// The faces after the file `filename` with `bytes` arrived: the face that
/// the file names gets the bytes; a file that names no face changes nothing.
pub open spec fn faces_after(faces: Seq<Seq<u8>>, filename: Seq<char>, bytes: Seq<u8>) -> Seq<Seq<u8>> {
    match face_slot(filename) {
        Some(i) => faces.update(i, bytes),
        None => faces,
    }
}

/// The file name of the face in each slot.
pub open spec fn face_file_name(slot: int) -> Seq<char> {
    if slot == LEFT {
        "Left"@
    } else if slot == RIGHT {
        "Right"@
    } else if slot == TOP {
        "Top"@
    } else if slot == BOTTOM {
        "Bottom"@
    } else if slot == FRONT {
        "Front"@
    } else {
        "Back"@
    }
}

/// The cube map target of the face named `name`, by the face's name: left
/// to negative Y, right to positive Y, top to positive Z, bottom to
/// negative X, front to negative Z and back to positive X.
pub open spec fn named_face_target(name: Seq<char>) -> u32 {
    if name == "Left"@ {
        0x8518u32
    } else if name == "Right"@ {
        0x8517u32
    } else if name == "Top"@ {
        0x8519u32
    } else if name == "Bottom"@ {
        0x8516u32
    } else if name == "Front"@ {
        0x851Au32
    } else {
        0x8515u32
    }
}

/// A face file is stored in the slot of the face it names: a file whose
/// name gives a slot is that slot's face, each of the six face names gives
/// its own slot, and the face in that slot is uploaded to the target of
/// that face.
pub proof fn lemma_face_files_land_in_their_slots(name: Seq<char>, slot: int)
    ensures
        face_slot(name) == Some(slot) ==> 0 <= slot < 6 && name == face_file_name(slot)
            && face_target(slot) == Some(named_face_target(name)),
        0 <= slot < 6 ==> face_slot(face_file_name(slot)) == Some(slot),
{
    reveal_strlit("Left");
    reveal_strlit("Right");
    reveal_strlit("Top");
    reveal_strlit("Bottom");
    reveal_strlit("Front");
    reveal_strlit("Back");
    assert("Left"@.len() != "Right"@.len());
    assert("Left"@.len() != "Top"@.len());
    assert("Left"@.len() != "Bottom"@.len());
    assert("Left"@.len() != "Front"@.len());
    assert("Left"@[0] != "Back"@[0]);
    assert("Right"@.len() != "Top"@.len());
    assert("Right"@.len() != "Bottom"@.len());
    assert("Right"@[0] != "Front"@[0]);
    assert("Right"@.len() != "Back"@.len());
    assert("Top"@.len() != "Bottom"@.len());
    assert("Top"@.len() != "Front"@.len());
    assert("Top"@.len() != "Back"@.len());
    assert("Bottom"@.len() != "Front"@.len());
    assert("Bottom"@.len() != "Back"@.len());
    assert("Front"@.len() != "Back"@.len());
}

/// What receiving one face did to a cubemap under construction.
#[derive(Clone, Copy, Debug, PartialEq, Eq, Structural)]
pub enum FaceReceipt {
    /// The cubemap was already complete; nothing changed.
    AlreadyComplete,
    /// Some faces are still missing.
    Pending,
    /// This face was the last one missing: the cubemap is now complete and
    /// its faces can be turned into a texture.
    Completed,
}

/// The six faces of a cubemap texture, gathered one file at a time until all
/// of them are there.
pub struct TempCubemap {
    faces: Vec<Vec<u8>>,
    completed: bool,
}

impl TempCubemap {
    pub closed spec fn wf(&self) -> bool {
        self.faces@.len() == 6
    }

    /// The bytes received for each face; an empty face has not arrived yet.
    pub closed spec fn face_bytes(&self) -> Seq<Seq<u8>> {
        self.faces@.map_values(|f: Vec<u8>| f@)
    }

    pub closed spec fn is_completed(&self) -> bool {
        self.completed
    }

    /// All six faces have arrived and no texture was made from them yet.
    pub open spec fn ready(&self) -> bool {
        &&& !self.is_completed()
        &&& all_faces_present(self.face_bytes())
    }

    /// A cubemap with no faces yet.
    pub fn new() -> (r: Self)
        ensures
            r.wf(),
            !r.is_completed(),
            r.face_bytes() == Seq::new(6, |i: int| Seq::<u8>::empty()),
    {
        let mut faces: Vec<Vec<u8>> = Vec::new();
        let mut k: usize = 0;
        while k < 6
            invariant
                k <= 6,
                faces@.len() == k,
                forall|j: int| 0 <= j < k ==> faces@[j]@ =~= Seq::<u8>::empty(),
            decreases 6 - k,
        {
            faces.push(Vec::new());
            k = k + 1;
        }
        let r = TempCubemap { faces, completed: false };
        assert(r.face_bytes() =~= Seq::new(6, |i: int| Seq::<u8>::empty()));
        r
    }

    /// The slot of the face whose file is called `filename`, if any.
    pub fn face_slot_from_filename(filename: &str) -> (r: Option<usize>)
        ensures
            match r {
                Some(i) => face_slot(filename@) == Some(i as int),
                None => face_slot(filename@) is None,
            },
    {
        if crate::text::str_eq(filename, "Left") {
            Some(LEFT)
        } else if crate::text::str_eq(filename, "Right") {
            Some(RIGHT)
        } else if crate::text::str_eq(filename, "Top") {
            Some(TOP)
        } else if crate::text::str_eq(filename, "Bottom") {
            Some(BOTTOM)
        } else if crate::text::str_eq(filename, "Front") {
            Some(FRONT)
        } else if crate::text::str_eq(filename, "Back") {
            Some(BACK)
        } else {
            None
        }
    }

    /// The buffer of the face whose file is called `filename`, if any.
    pub fn get_face_from_filename(&mut self, filename: &str) -> (r: Option<&mut Vec<u8>>)
        requires
            old(self).wf(),
        ensures
            match face_slot(filename@) {
                Some(i) => {
                    &&& r is Some
                    &&& r->0@ == old(self).face_bytes()[i]
                    &&& final(self).wf()
                    &&& final(self).face_bytes() == old(self).face_bytes().update(i, final(r->0)@)
                    &&& final(self).is_completed() == old(self).is_completed()
                },
                None => r is None && *final(self) == *old(self),
            },
    {
        match Self::face_slot_from_filename(filename) {
            Some(i) => Some(&mut self.faces[i]),
            None => None,
        }
    }

    /// The cube map texture target that the face in slot `face_index` is
    /// uploaded to, if there is such a face.
    pub fn get_target_from_index(face_index: usize) -> (r: Option<u32>)
        ensures
            r == face_target(face_index as int),
    {
        if face_index == LEFT {
            Some(0x8518u32)
        } else if face_index == RIGHT {
            Some(0x8517u32)
        } else if face_index == TOP {
            Some(0x8519u32)
        } else if face_index == BOTTOM {
            Some(0x8516u32)
        } else if face_index == FRONT {
            Some(0x851Au32)
        } else if face_index == BACK {
            Some(0x8515u32)
        } else {
            None
        }
    }

    /// Whether all faces are there and no texture was made from them yet.
    pub fn is_ready_to_convert(&self) -> (r: bool)
        requires
            self.wf(),
        ensures
            r == self.ready(),
    {
        if self.completed {
            return false;
        }
        let mut i: usize = 0;
        while i < 6
            invariant
                self.wf(),
                i <= 6,
                forall|j: int| 0 <= j < i ==> #[trigger] self.face_bytes()[j].len() > 0,
            decreases 6 - i,
        {
            if self.faces[i].len() == 0 {
                assert(self.face_bytes()[i as int].len() == 0);
                return false;
            }
            i = i + 1;
        }
        true
    }

    /// The bytes of the face in slot `i`.
    pub fn face(&self, i: usize) -> (r: &[u8])
        requires
            self.wf(),
            i < 6,
        ensures
            r@ == self.face_bytes()[i as int],
    {
        self.faces[i].as_slice()
    }

    /// Takes the file `filename` of one face. Once all six faces are there
    /// the cubemap is complete, and later faces are refused.
    pub fn receive_face(&mut self, filename: &str, bytes: &[u8]) -> (r: FaceReceipt)
        requires
            old(self).wf(),
        ensures
            final(self).wf(),
            old(self).is_completed() ==> r == FaceReceipt::AlreadyComplete && *final(self) == *old(
                self,
            ),
            !old(self).is_completed() ==> final(self).face_bytes() == faces_after(
                old(self).face_bytes(),
                filename@,
                bytes@,
            ),
            !old(self).is_completed() ==> final(self).is_completed() == all_faces_present(
                final(self).face_bytes(),
            ),
            !old(self).is_completed() ==> (r == FaceReceipt::Completed) == all_faces_present(
                final(self).face_bytes(),
            ),
            !old(self).is_completed() ==> r != FaceReceipt::AlreadyComplete,
    {
        if self.completed {
            return FaceReceipt::AlreadyComplete;
        }
        match Self::face_slot_from_filename(filename) {
            Some(i) => {
                self.faces.set(i, slice_to_vec(bytes));
                proof {
                    assert(self.face_bytes() =~= old(self).face_bytes().update(i as int, bytes@));
                }
            },
            None => {},
        }
        if self.is_ready_to_convert() {
            self.completed = true;
            FaceReceipt::Completed
        } else {
            FaceReceipt::Pending
        }
    }
}

impl Default for TempCubemap {
    fn default() -> (r: Self)
        ensures
            r.wf(),
            !r.is_completed(),
            r.face_bytes() == Seq::new(6, |i: int| Seq::<u8>::empty()),
    {
        Self::new()
    }
}

} // verus!
