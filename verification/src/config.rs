//! The binary form of configuration values, and the products of lists used to
//! expand experiments.

use vstd::prelude::*;
use vstd::utf8::encode_utf8;

verus! {

///A configuration value as the binary form stores it; a number is kept by the bits of its `f64`,
///and the two kinds of expressions, whose contents the binary form does not store, by their kind alone.
pub enum ConfigurationValue {
    Literal(String),
    Number(u64),
    Object(String, Vec<(String, ConfigurationValue)>),
    Array(Vec<ConfigurationValue>),
    Experiments(Vec<ConfigurationValue>),
    NamedExperiments(String, Vec<ConfigurationValue>),
    True,
    False,
    Where,
    Expression,
    NoneValue,
}

///The four little-endian bytes of a number.
pub open spec fn le_bytes(x: u32) -> Seq<u8> {
    seq![(x % 256) as u8, ((x / 256) % 256) as u8, ((x / 65536) % 256) as u8, (x / 16777216) as u8]
}

///The little-endian bytes of a number.
pub fn u32_le_bytes(x: u32) -> (b: [u8; 4])
    ensures
        b@ == le_bytes(x),
{
    let b = [(x % 256) as u8, ((x / 256) % 256) as u8, ((x / 65536) % 256) as u8, (x / 16777216) as u8];
    proof {
        assert(b@ =~= le_bytes(x));
    }
    b
}

///Appends the four bytes of a number.
fn push_u32(vector: &mut Vec<u8>, x: u32)
    ensures
        final(vector)@ == old(vector)@ + le_bytes(x),
{
    let b = u32_le_bytes(x);
    vector.push(b[0]);
    vector.push(b[1]);
    vector.push(b[2]);
    vector.push(b[3]);
    proof {
        assert(vector@ =~= old(vector)@ + le_bytes(x));
    }
}

///Writes configuration values in binary form, storing each name once.
pub struct BinaryConfigWriter {
    vector: Vec<u8>,
    name_locations: Vec<(String, u32)>,
}

///Whether a list of names and locations has a name.
pub open spec fn names_have(names: Seq<(String, u32)>, name: Seq<char>) -> bool {
    exists|i: int| 0 <= i < names.len() && (#[trigger] names[i]).0@ == name
}

impl BinaryConfigWriter {
    ///The bytes written so far.
    pub closed spec fn bytes(&self) -> Seq<u8> {
        self.vector@
    }

    ///The names stored, each with the location of its length and bytes.
    pub closed spec fn names(&self) -> Seq<(String, u32)> {
        self.name_locations@
    }

    ///Each name is stored once, at its location: its length in bytes and then its bytes; and the bytes fit `u32` locations.
    pub closed spec fn wf(&self) -> bool {
        &&& self.vector@.len() <= u32::MAX
        &&& forall|i: int, j: int| 0 <= i < j < self.name_locations@.len() ==>
            (#[trigger] self.name_locations@[i]).0@ != (#[trigger] self.name_locations@[j]).0@
        &&& forall|i: int| 0 <= i < self.name_locations@.len() ==> name_stored(self.vector@, #[trigger] self.name_locations@[i])
    }

    pub fn new() -> (w: BinaryConfigWriter)
        ensures
            w.wf(),
            w.bytes() == Seq::<u8>::empty(),
            w.names() == Seq::<(String, u32)>::empty(),
    {
        BinaryConfigWriter { vector: Vec::new(), name_locations: Vec::new() }
    }

    ///The bytes written.
    pub fn take_vector(self) -> (v: Vec<u8>)
        ensures
            v@ == self.bytes(),
    {
        self.vector
    }

    ///Get a location with the name given. Insert it in the map and vector if necessary.
    pub fn locate(&mut self, name: &str) -> (loc: u32)
        requires
            old(self).wf(),
            old(self).bytes().len() + 4 + encode_utf8(name@).len() <= u32::MAX,
        ensures
            final(self).wf(),
            names_have(old(self).names(), name@) ==> {
                &&& final(self).bytes() == old(self).bytes()
                &&& final(self).names() == old(self).names()
                &&& exists|i: int| 0 <= i < old(self).names().len() && (#[trigger] old(self).names()[i]).0@ == name@
                    && old(self).names()[i].1 == loc
            },
            !names_have(old(self).names(), name@) ==> {
                &&& loc == old(self).bytes().len()
                &&& final(self).bytes() == old(self).bytes() + le_bytes(encode_utf8(name@).len() as u32) + encode_utf8(name@)
                &&& final(self).names().len() == old(self).names().len() + 1
                &&& final(self).names().drop_last() == old(self).names()
                &&& final(self).names().last().0@ == name@
                &&& final(self).names().last().1 == loc
            },
    {
        let mut i: usize = 0;
        while i < self.name_locations.len()
            invariant
                i <= self.name_locations@.len(),
                *self == *old(self),
                self.wf(),
                forall|k: int| 0 <= k < i ==> (#[trigger] self.name_locations@[k]).0@ != name@,
            decreases self.name_locations@.len() - i,
        {
            if crate::experiments::same_text(self.name_locations[i].0.as_str(), name) {
                return self.name_locations[i].1;
            }
            i = i + 1;
        }
        let loc = self.vector.len() as u32;
        let bytes = name.as_bytes();
        proof {
            assert(forall|k: int| 0 <= k < self.name_locations@.len() ==> (#[trigger] self.name_locations@[k]).0@ != name@);
        }
        push_u32(&mut self.vector, bytes.len() as u32);
        let ghost before = self.vector@;
        let mut k: usize = 0;
        while k < bytes.len()
            invariant
                k <= bytes@.len(),
                bytes@ == encode_utf8(name@),
                self.name_locations@ == old(self).name_locations@,
                before == old(self).vector@ + le_bytes(bytes@.len() as u32),
                self.vector@ == before + bytes@.take(k as int),
            decreases bytes@.len() - k,
        {
            self.vector.push(bytes[k]);
            proof {
                assert(bytes@.take(k + 1) == bytes@.take(k as int).push(bytes@[k as int]));
            }
            k = k + 1;
        }
        proof {
            assert(bytes@.take(bytes@.len() as int) == bytes@);
        }
        let mut owned = String::new();
        owned.append(name);
        let ghost old_names = self.name_locations@;
        let ghost old_bytes = old(self).vector@;
        self.name_locations.push((owned, loc));
        proof {
            assert(owned@ =~= name@);
            assert forall|j: int| 0 <= j < self.name_locations@.len() implies name_stored(self.vector@, #[trigger] self.name_locations@[j]) by {
                if j < old_names.len() {
                    let e = old_names[j];
                    assert(name_stored(old_bytes, e));
                    let b = encode_utf8(e.0@);
                    assert(self.vector@.subrange(e.1 as int, e.1 + 4) == old_bytes.subrange(e.1 as int, e.1 + 4));
                    assert(self.vector@.subrange(e.1 + 4, e.1 + 4 + b.len()) == old_bytes.subrange(e.1 + 4, e.1 + 4 + b.len()));
                } else {
                    assert(self.vector@.subrange(loc as int, loc + 4) =~= le_bytes(bytes@.len() as u32));
                    assert(self.vector@.subrange(loc + 4, loc + 4 + bytes@.len()) =~= bytes@);
                }
            }
        }
        loc
    }
}

///A name is stored at its location: the four bytes of its length and then its UTF-8 bytes.
pub open spec fn name_stored(bytes: Seq<u8>, entry: (String, u32)) -> bool {
    let loc = entry.1 as int;
    let b = encode_utf8(entry.0@);
    &&& loc + 4 + b.len() <= bytes.len()
    &&& bytes.subrange(loc, loc + 4) == le_bytes(b.len() as u32)
    &&& bytes.subrange(loc + 4, loc + 4 + b.len()) == b
}

///Given a list of vectors, `[A1,A2,A3,A4,...]`, `Ai` beging a `Vec<T>` and second vector `b:&Vec<T>=[b1,b2,b3,b4,...]`, each `bi:T`.
///It creates a list of vectors with each combination Ai+bj.
pub fn vec_product<T: Copy>(a: &Vec<Vec<T>>, b: &Vec<T>) -> (r: Vec<Vec<T>>)
    ensures
        r@.len() == a@.len() * b@.len(),
        forall|i: int, j: int| 0 <= i < a@.len() && 0 <= j < b@.len() ==>
            (#[trigger] r@[i * b@.len() + j])@ == a@[i]@.push(b@[j]),
{
    let mut r: Vec<Vec<T>> = Vec::new();
    let mut i: usize = 0;
    while i < a.len()
        invariant
            i <= a@.len(),
            r@.len() == i * b@.len(),
            forall|x: int, y: int| 0 <= x < i && 0 <= y < b@.len() ==>
                (#[trigger] r@[x * b@.len() + y])@ == a@[x]@.push(b@[y]),
        decreases a@.len() - i,
    {
        let mut j: usize = 0;
        while j < b.len()
            invariant
                i < a@.len(),
                j <= b@.len(),
                r@.len() == i * b@.len() + j,
                forall|x: int, y: int| 0 <= x < i && 0 <= y < b@.len() ==>
                    (#[trigger] r@[x * b@.len() + y])@ == a@[x]@.push(b@[y]),
                forall|y: int| 0 <= y < j ==> (#[trigger] r@[i * b@.len() + y])@ == a@[i as int]@.push(b@[y]),
            decreases b@.len() - j,
        {
            let mut new: Vec<T> = Vec::new();
            let ae = &a[i];
            let mut k: usize = 0;
            while k < ae.len()
                invariant
                    k <= ae@.len(),
                    new@ == ae@.take(k as int),
                decreases ae@.len() - k,
            {
                new.push(ae[k]);
                proof {
                    assert(ae@.take(k + 1) == ae@.take(k as int).push(ae@[k as int]));
                }
                k = k + 1;
            }
            proof {
                assert(ae@.take(ae@.len() as int) == ae@);
            }
            new.push(b[j]);
            let ghost before = r@;
            r.push(new);
            proof {
                assert forall|x: int, y: int| 0 <= x < i && 0 <= y < b@.len() implies
                    (#[trigger] r@[x * b@.len() + y])@ == a@[x]@.push(b@[y]) by {
                    assert(x * b@.len() + y < i * b@.len()) by (nonlinear_arith)
                        requires 0 <= x < i, 0 <= y < b@.len();
                    assert(r@[x * b@.len() + y] == before[x * b@.len() + y]);
                }
                assert forall|y: int| 0 <= y < j + 1 implies (#[trigger] r@[i * b@.len() + y])@ == a@[i as int]@.push(b@[y]) by {
                    if y < j {
                        assert(r@[i * b@.len() + y] == before[i * b@.len() + y]);
                    }
                }
            }
            j = j + 1;
        }
        proof {
            assert((i + 1) * b@.len() == i * b@.len() + b@.len()) by (nonlinear_arith);
            assert forall|x: int, y: int| 0 <= x < i + 1 && 0 <= y < b@.len() implies
                (#[trigger] r@[x * b@.len() + y])@ == a@[x]@.push(b@[y]) by {
                if x == i {
                    assert(r@[i * b@.len() + y]@ == a@[i as int]@.push(b@[y]));
                }
            }
        }
        i = i + 1;
    }
    r
}

} // verus!
