//! What a GLZ stream says, apart from how it is read: a stream is a row of
//! steps, each of them some pixels given by their bytes, some pixels that
//! stood before in the same image, or some pixels of an earlier image.

use vstd::prelude::*;

use crate::glz::codec::{
    earlier, extended, gathered, little, pass, reference, rgb32_image, Dictionary,
};
use crate::glz::error::{GlzError, Result};
use crate::glz::header::GlzHeader;
use crate::glz::window::Image;
use crate::lz::steps;
use crate::lz::LzImageType;

verus! {

/// How the code of a reference is laid out.
pub struct Form {
    /// The offset has more than twelve bits.
    pub wide: bool,
    /// The offset has more than seventeen bits, in a wide form.
    pub far: bool,
    /// How many bytes hold the image distance, or what it has beyond six bits
    /// where the form is not wide.
    pub extra: int,
}

/// A step of a stream.
pub enum Step {
    /// Pixels given by their bytes.
    Given(Seq<u8>),
    /// `len` pixels, each the one that stands `back` pixels before it.
    Again { len: int, back: int, form: Form },
    /// `len` pixels of the image that came `dist` images before, from its
    /// pixel `ofs` on.
    Elsewhere { len: int, ofs: int, dist: int, form: Form },
}

/// 256 to the `n`.
pub open spec fn room(n: int) -> int
    decreases n,
{
    if n <= 0 {
        1
    } else {
        256 * room(n - 1)
    }
}

/// The `n` low bytes of a number, the lowest first.
pub open spec fn low_bytes(v: int, n: int) -> Seq<u8>
    decreases n,
{
    if n <= 0 {
        Seq::empty()
    } else {
        seq![(v % 256) as u8] + low_bytes(v / 256, n - 1)
    }
}

/// A form can hold an offset and an image distance.
pub open spec fn holds(form: Form, ofs: int, dist: int) -> bool {
    &&& 0 <= form.extra <= 3
    &&& form.far ==> form.wide
    &&& 0 <= ofs
    &&& ofs < if form.far {
        33554432int
    } else if form.wide {
        131072int
    } else {
        4096int
    }
    &&& 0 <= dist < if form.wide {
        room(form.extra)
    } else {
        64 * room(form.extra)
    }
}

/// The bytes of a reference. The first has the length in its upper three
/// bits, with the rest of a length from seven on behind it; then a bit that is
/// set in the wide form; then the four low bits of the offset. The next eight
/// bits of the offset have a byte of their own. The byte behind that has the
/// number of bytes of image distance in its upper two bits. In the short form
/// its lower six bits are the lowest of the image distance; in the wide form
/// there is a bit that is set in the far form, and five more bits of offset.
/// Image distance and, in the far form, eight more bits of offset come last.
pub open spec fn code_of(len: int, ofs: int, dist: int, form: Form) -> Seq<u8> {
    let high = if len < 7 {
        len
    } else {
        7
    };
    let rest = if len < 7 {
        Seq::empty()
    } else {
        steps::in_bytes(len - 7)
    };
    let near = (ofs / 16 % 256) as u8;
    if form.wide {
        let far = if form.far {
            1int
        } else {
            0int
        };
        seq![(32 * high + 16 + ofs % 16) as u8] + rest + seq![
            near,
            (64 * form.extra + 32 * far + ofs / 4096 % 32) as u8,
        ] + low_bytes(dist, form.extra) + if form.far {
            seq![(ofs / 131072) as u8]
        } else {
            Seq::empty()
        }
    } else {
        seq![(32 * high + ofs % 16) as u8] + rest + seq![
            near,
            (64 * form.extra + dist % 64) as u8,
        ] + low_bytes(dist / 64, form.extra)
    }
}

/// The id of the image that came `dist` before `id`. Ids wrap at 64 bits.
pub open spec fn before(id: u64, dist: int) -> u64 {
    ((id - dist) % 0x1_0000_0000_0000_0000) as u64
}

impl Step {
    /// How many pixels it gives.
    pub open spec fn pixels(self) -> int {
        match self {
            Step::Given(bytes) => bytes.len() as int / 3,
            Step::Again { len, .. } => len,
            Step::Elsewhere { len, .. } => len,
        }
    }

    /// It may stand in image `id` where `op` pixels have been given.
    pub open spec fn fits(self, id: u64, images: Map<u64, Image>, op: int) -> bool {
        match self {
            Step::Given(bytes) => {
                &&& 1 <= bytes.len() as int / 3 <= 32
                &&& bytes.len() == 3 * (bytes.len() as int / 3)
            },
            Step::Again { len, back, form } => {
                &&& 1 <= len
                &&& 1 <= back <= op
                &&& holds(form, back - 1, 0)
            },
            Step::Elsewhere { len, ofs, dist, form } => {
                &&& 1 <= len
                &&& 1 <= dist
                &&& holds(form, ofs, dist)
                &&& images.dom().contains(before(id, dist))
                &&& ({
                    let image = images[before(id, dist)];
                    &&& (ofs + len) * image.bpp <= image.pixels.len()
                    &&& (ofs + len - 1) * image.bpp + 3 <= image.pixels.len()
                })
            },
        }
    }

    /// Its bytes.
    pub open spec fn coded(self) -> Seq<u8> {
        match self {
            Step::Given(bytes) => seq![(bytes.len() as int / 3 - 1) as u8] + bytes,
            Step::Again { len, back, form } => code_of(len, back - 1, 0, form),
            Step::Elsewhere { len, ofs, dist, form } => code_of(len, ofs, dist, form),
        }
    }

    /// What it says of the pixels that follow the first `op`, in the colour
    /// bytes of all pixels: those of an earlier image are the pixels that the
    /// dictionary has under that image's id.
    pub open spec fn says(self, id: u64, images: Map<u64, Image>, op: int, all: Seq<u8>) -> bool {
        match self {
            Step::Given(bytes) => forall|j: int|
                0 <= j < bytes.len() ==> #[trigger] bytes[j] == all[3 * op + j],
            Step::Again { len, back, .. } => forall|j: int|
                3 * op <= j < 3 * (op + len) ==> #[trigger] all[j] == all[j - 3 * back],
            Step::Elsewhere { len, ofs, dist, .. } => {
                let image = images[before(id, dist)];
                forall|k: int, c: int|
                    0 <= k < len && 0 <= c < 3 ==> #[trigger] all[3 * (op + k) + c]
                        == image.pixels[(ofs + k) * image.bpp + c]
            },
        }
    }
}

/// The bytes of a row of steps.
pub open spec fn stream_of(steps: Seq<Step>) -> Seq<u8>
    decreases steps.len(),
{
    if steps.len() == 0 {
        Seq::empty()
    } else {
        steps[0].coded() + stream_of(steps.skip(1))
    }
}

/// The images that references can go to.
pub open spec fn known(dict: Dictionary) -> Map<u64, Image> {
    match dict {
        None => Map::empty(),
        Some(images) => images,
    }
}

/// From `op` pixels on, the steps lead to `n` pixels, and what they say holds
/// of the colour bytes of all pixels.
pub open spec fn lead_to(
    steps: Seq<Step>,
    id: u64,
    images: Map<u64, Image>,
    op: int,
    n: int,
    all: Seq<u8>,
) -> bool
    decreases steps.len(),
{
    if steps.len() == 0 {
        op == n && all.len() == 3 * n
    } else {
        &&& steps[0].fits(id, images, op)
        &&& op + steps[0].pixels() <= n
        &&& steps[0].says(id, images, op, all)
        &&& lead_to(steps.skip(1), id, images, op + steps[0].pixels(), n, all)
    }
}

proof fn lemma_low_bytes(s: Seq<u8>, at: int, v: int, n: int)
    requires
        0 <= at,
        0 <= n,
        0 <= v < room(n),
        at + low_bytes(v, n).len() <= s.len(),
        s.subrange(at, at + low_bytes(v, n).len()) == low_bytes(v, n),
    ensures
        low_bytes(v, n).len() == n,
        little(s, at, n) == v,
    decreases n,
{
    if n > 0 {
        let bytes = low_bytes(v, n);
        let rest = low_bytes(v / 256, n - 1);
        assert(s.subrange(at, at + bytes.len())[0] == bytes[0]);
        assert(s.subrange(at + 1, at + 1 + rest.len()) =~= rest) by {
            assert forall|k: int| 0 <= k < rest.len() implies s.subrange(
                at + 1,
                at + 1 + rest.len(),
            )[k] == rest[k] by {
                assert(s.subrange(at, at + bytes.len())[k + 1] == bytes[k + 1]);
            }
        }
        lemma_low_bytes(s, at + 1, v / 256, n - 1);
    }
}

proof fn lemma_low_len(v: int, n: int)
    requires
        0 <= n,
    ensures
        low_bytes(v, n).len() == n,
    decreases n,
{
    if n > 0 {
        lemma_low_len(v / 256, n - 1);
    }
}

proof fn lemma_extended(s: Seq<u8>, ip: int, v: int, acc: int)
    requires
        0 <= ip,
        0 <= v,
        ip + steps::in_bytes(v).len() <= s.len(),
        s.subrange(ip, ip + steps::in_bytes(v).len()) == steps::in_bytes(v),
    ensures
        extended(s, ip, acc) == Some((acc + v, (ip + steps::in_bytes(v).len()) as int)),
    decreases v,
{
    let bytes = steps::in_bytes(v);
    assert(s.subrange(ip, ip + bytes.len())[0] == bytes[0]);
    if v >= 255 {
        let less = steps::in_bytes(v - 255);
        assert(s.subrange(ip + 1, ip + 1 + less.len()) =~= less) by {
            assert forall|k: int| 0 <= k < less.len() implies s.subrange(
                ip + 1,
                ip + 1 + less.len(),
            )[k] == less[k] by {
                assert(s.subrange(ip, ip + bytes.len())[k + 1] == bytes[k + 1]);
            }
        }
        lemma_extended(s, ip + 1, v - 255, acc + 255);
    }
}

/// The rest of a length from seven on.
spec fn rest_of(len: int) -> Seq<u8> {
    if len < 7 {
        Seq::empty()
    } else {
        steps::in_bytes(len - 7)
    }
}

/// The image distance, or what it has beyond six bits.
spec fn held(dist: int, form: Form) -> int {
    if form.wide {
        dist
    } else {
        dist / 64
    }
}

/// The byte at the head of a reference.
spec fn head_byte(len: int, ofs: int, form: Form) -> int {
    32 * (if len < 7 {
        len
    } else {
        7
    }) + (if form.wide {
        16int
    } else {
        0
    }) + ofs % 16
}

/// The byte behind the near bits of the offset.
spec fn form_byte(ofs: int, dist: int, form: Form) -> int {
    if form.wide {
        64 * form.extra + (if form.far {
            32int
        } else {
            0
        }) + ofs / 4096 % 32
    } else {
        64 * form.extra + dist % 64
    }
}

proof fn lemma_code(len: int, ofs: int, dist: int, form: Form)
    requires
        1 <= len,
        holds(form, ofs, dist),
    ensures
        ({
            let code = code_of(len, ofs, dist, form);
            let m = rest_of(len).len() as int;
            let bytes = low_bytes(held(dist, form), form.extra);
            &&& bytes.len() == form.extra
            &&& code.len() == m + 3 + form.extra + if form.far {
                1int
            } else {
                0
            }
            &&& code[0] == head_byte(len, ofs, form) as u8
            &&& code.subrange(1, 1 + m) == rest_of(len)
            &&& code[m + 1] == (ofs / 16 % 256) as u8
            &&& code[m + 2] == form_byte(ofs, dist, form) as u8
            &&& code.subrange(m + 3, m + 3 + form.extra) == bytes
            &&& form.far ==> code[m + 3 + form.extra] == (ofs / 131072) as u8
        }),
{
    let code = code_of(len, ofs, dist, form);
    let m = rest_of(len).len() as int;
    let bytes = low_bytes(held(dist, form), form.extra);
    lemma_low_len(held(dist, form), form.extra);
    assert(code.subrange(1, 1 + m) =~= rest_of(len));
    assert(code.subrange(m + 3, m + 3 + form.extra) =~= bytes);
}

proof fn lemma_part(s: Seq<u8>, ip: int, code: Seq<u8>, from: int, to: int)
    requires
        0 <= ip,
        0 <= from <= to <= code.len(),
        ip + code.len() <= s.len(),
        s.subrange(ip, ip + code.len()) == code,
    ensures
        s.subrange(ip + from, ip + to) == code.subrange(from, to),
        forall|k: int| 0 <= k < code.len() ==> s[ip + k] == #[trigger] code[k],
{
    assert forall|k: int| 0 <= k < code.len() implies s[ip + k] == #[trigger] code[k] by {
        assert(s.subrange(ip, ip + code.len())[k] == code[k]);
    }
    assert(s.subrange(ip + from, ip + to) =~= code.subrange(from, to)) by {
        assert forall|k: int| 0 <= k < to - from implies s.subrange(ip + from, ip + to)[k]
            == code.subrange(from, to)[k] by {
            assert(s[ip + (from + k)] == code[from + k]);
        }
    }
}

proof fn lemma_reference(s: Seq<u8>, ip: int, len: int, ofs: int, dist: int, form: Form)
    requires
        1 <= len,
        holds(form, ofs, dist),
        0 <= ip,
        ip + code_of(len, ofs, dist, form).len() <= s.len(),
        s.subrange(ip, ip + code_of(len, ofs, dist, form).len()) == code_of(len, ofs, dist, form),
    ensures
        s[ip] >= 32,
        reference(s, s[ip] as int, ip + 1) matches Some(r) && {
            &&& r.len == len
            &&& r.dist == dist
            &&& r.ofs == ofs + if dist == 0 {
                1int
            } else {
                0int
            }
            &&& r.next == ip + code_of(len, ofs, dist, form).len()
        },
{
    let code = code_of(len, ofs, dist, form);
    let m = rest_of(len).len() as int;
    let at = ip + 1 + m;
    lemma_code(len, ofs, dist, form);
    lemma_part(s, ip, code, 1, 1 + m);
    lemma_part(s, ip, code, m + 3, m + 3 + form.extra);
    assert(s[ip] == code[0]);
    assert(s[at] == code[m + 1]);
    assert(s[at + 1] == code[m + 2]);
    if len >= 7 {
        lemma_extended(s, ip + 1, len - 7, 7);
    }
    lemma_low_bytes(s, at + 2, held(dist, form), form.extra);
    if form.far {
        assert(s[ip + (m + 3 + form.extra)] == code[m + 3 + form.extra]);
    }
    lemma_read(s, ip, at, code.len() as int, len, ofs, dist, form);
}

proof fn lemma_head(high: int, wide: int, low: int)
    requires
        0 <= high < 8,
        0 <= wide < 2,
        0 <= low < 16,
    ensures
        ({
            let byte = 32 * high + 16 * wide + low;
            &&& 0 <= byte < 256
            &&& byte / 32 == high
            &&& byte / 16 % 2 == wide
            &&& byte % 16 == low
        }),
{
}

proof fn lemma_form(extra: int, far: int, low: int)
    requires
        0 <= extra < 4,
        0 <= far < 2,
        0 <= low < 32,
    ensures
        ({
            let byte = 64 * extra + 32 * far + low;
            &&& 0 <= byte < 256
            &&& byte / 64 == extra
            &&& byte / 32 % 2 == far
            &&& byte % 32 == low
            &&& byte % 64 == 32 * far + low
        }),
{
}

proof fn lemma_offset(ofs: int)
    requires
        0 <= ofs < 33554432,
    ensures
        ofs == ofs % 16 + 16 * (ofs / 16 % 256) + 4096 * (ofs / 4096 % 32) + 131072 * (ofs
            / 131072),
        0 <= ofs / 131072 < 256,
        ofs < 131072 ==> ofs / 131072 == 0,
        ofs < 4096 ==> ofs / 4096 == 0,
{
    let q = ofs / 16;
    assert(q / 256 == ofs / 4096);
    let r = ofs / 4096;
    assert(r / 32 == ofs / 131072);
}

proof fn lemma_read(
    s: Seq<u8>,
    ip: int,
    at: int,
    size: int,
    len: int,
    ofs: int,
    dist: int,
    form: Form,
)
    requires
        1 <= len,
        holds(form, ofs, dist),
        0 <= ip < at,
        s[ip] == head_byte(len, ofs, form) as u8,
        if len < 7 {
            at == ip + 1
        } else {
            extended(s, ip + 1, 7) == Some((len, at))
        },
        s[at] == (ofs / 16 % 256) as u8,
        s[at + 1] == form_byte(ofs, dist, form) as u8,
        little(s, at + 2, form.extra) == held(dist, form),
        form.far ==> s[at + 2 + form.extra] == (ofs / 131072) as u8,
        ip + size == at + 2 + form.extra + if form.far {
            1int
        } else {
            0
        },
        ip + size <= s.len(),
    ensures
        s[ip] >= 32,
        reference(s, s[ip] as int, ip + 1) matches Some(r) && {
            &&& r.len == len
            &&& r.dist == dist
            &&& r.ofs == ofs + if dist == 0 {
                1int
            } else {
                0int
            }
            &&& r.next == ip + size
        },
{
    let high = if len < 7 {
        len
    } else {
        7
    };
    lemma_offset(ofs);
    if form.wide {
        lemma_head(high, 1, ofs % 16);
        let far = if form.far {
            1int
        } else {
            0
        };
        lemma_form(form.extra, far, ofs / 4096 % 32);
        lemma_wide(s, ip, at, len, ofs, dist, form);
    } else {
        lemma_head(high, 0, ofs % 16);
        lemma_form(form.extra, dist % 64 / 32, dist % 32);
        assert(32 * (dist % 64 / 32) + dist % 32 == dist % 64) by {
            let r = dist % 64;
            assert(r % 32 == dist % 32);
        }
        lemma_short(s, ip, at, len, ofs, dist, form);
    }
}

proof fn lemma_wide(s: Seq<u8>, ip: int, at: int, len: int, ofs: int, dist: int, form: Form)
    requires
        form.wide,
        0 <= ip < at,
        0 <= dist,
        s[ip] / 32 == if len < 7 {
            len
        } else {
            7
        },
        s[ip] / 16 % 2 == 1,
        if len < 7 {
            at == ip + 1
        } else {
            extended(s, ip + 1, 7) == Some((len, at))
        },
        0 <= form.extra <= 3,
        s[at + 1] as int / 64 == form.extra,
        s[at + 1] as int / 32 % 2 == if form.far {
            1int
        } else {
            0
        },
        ofs == s[ip] % 16 + 16 * s[at] + 4096 * (s[at + 1] % 32) + if form.far {
            131072 * s[at + 2 + form.extra]
        } else {
            0
        },
        little(s, at + 2, form.extra) == dist,
        at + 2 + form.extra + (if form.far {
            1int
        } else {
            0
        }) <= s.len(),
    ensures
        reference(s, s[ip] as int, ip + 1) matches Some(r) && {
            &&& r.len == len
            &&& r.dist == dist
            &&& r.ofs == ofs + if dist == 0 {
                1int
            } else {
                0int
            }
            &&& r.next == at + 2 + form.extra + if form.far {
                1int
            } else {
                0
            }
        },
{
}

proof fn lemma_short(s: Seq<u8>, ip: int, at: int, len: int, ofs: int, dist: int, form: Form)
    requires
        0 <= ip < at,
        0 <= dist,
        s[ip] / 32 == if len < 7 {
            len
        } else {
            7
        },
        s[ip] / 16 % 2 == 0,
        if len < 7 {
            at == ip + 1
        } else {
            extended(s, ip + 1, 7) == Some((len, at))
        },
        0 <= form.extra <= 3,
        s[at + 1] as int / 64 == form.extra,
        s[at + 1] % 64 == dist % 64,
        ofs == s[ip] % 16 + 16 * s[at],
        little(s, at + 2, form.extra) == dist / 64,
        at + 2 + form.extra <= s.len(),
    ensures
        reference(s, s[ip] as int, ip + 1) matches Some(r) && {
            &&& r.len == len
            &&& r.dist == dist
            &&& r.ofs == ofs + if dist == 0 {
                1int
            } else {
                0int
            }
            &&& r.next == at + 2 + form.extra
        },
{
}

proof fn lemma_before(id: u64, dist: int)
    requires
        0 <= dist < 0x1_0000_0000_0000_0000,
    ensures
        earlier(id, dist) == before(id, dist),
{
}

proof fn lemma_room(n: int)
    requires
        0 <= n <= 3,
    ensures
        1 <= room(n) <= 16777216,
{
    reveal_with_fuel(room, 4);
}

proof fn lemma_gathered(image: Image, len: int, ofs: int, op: int, all: Seq<u8>)
    requires
        0 <= op,
        0 <= len,
        3 * (op + len) <= all.len(),
        forall|k: int, c: int|
            0 <= k < len && 0 <= c < 3 ==> #[trigger] all[3 * (op + k) + c] == image.pixels[(ofs
                + k) * image.bpp + c],
    ensures
        all.take(3 * op) + gathered(image, ofs, len) == all.take(3 * (op + len)),
{
    let part = gathered(image, ofs, len);
    assert forall|q: int| 3 * op <= q < 3 * (op + len) implies #[trigger] all[q] == part[q - 3
        * op] by {
        let k = (q - 3 * op) / 3;
        let c = (q - 3 * op) % 3;
        assert(all[3 * (op + k) + c] == image.pixels[(ofs + k) * image.bpp + c]);
    }
    assert(all.take(3 * op) + part =~= all.take(3 * (op + len)));
}

/// What is read from `ip` on, where `op` pixels have been given.
#[verifier::opaque]
spec fn from_here(
    body: Seq<u8>,
    n: int,
    dict: Dictionary,
    id: u64,
    ip: int,
    op: int,
    out: Seq<u8>,
) -> Result<Seq<u8>> {
    pass(body, n, dict, id, ip, op, out)
}

proof fn lemma_step(
    body: Seq<u8>,
    step: Step,
    id: u64,
    dict: Dictionary,
    ip: int,
    op: int,
    n: int,
    all: Seq<u8>,
)
    requires
        0 <= op,
        0 <= ip,
        step.fits(id, known(dict), op),
        step.says(id, known(dict), op, all),
        op + step.pixels() <= n,
        3 * (op + step.pixels()) <= all.len(),
        ip + step.coded().len() <= body.len(),
        body.subrange(ip, ip + step.coded().len()) == step.coded(),
    ensures
        from_here(body, n, dict, id, ip, op, all.take(3 * op)) == from_here(
            body,
            n,
            dict,
            id,
            ip + step.coded().len(),
            op + step.pixels(),
            all.take(3 * (op + step.pixels())),
        ),
{
    reveal(from_here);
    let more = op + step.pixels();
    let code = step.coded();
    match step {
        Step::Given(bytes) => {
            assert(body.subrange(ip, ip + code.len())[0] == code[0]);
            assert(all.take(3 * op) + body.subrange(ip + 1, ip + code.len()) =~= all.take(
                3 * more,
            )) by {
                assert forall|q: int| 3 * op <= q < 3 * more implies #[trigger] all[q] == body[ip
                    + 1 + q - 3 * op] by {
                    let j = q - 3 * op;
                    assert(bytes[j] == all[3 * op + j]);
                    assert(code[1 + j] == bytes[j]);
                    assert(body.subrange(ip, ip + code.len())[1 + j] == code[1 + j]);
                }
            }
        },
        Step::Again { len, back, form } => {
            lemma_reference(body, ip, len, back - 1, 0, form);
            steps::lemma_copied(all, 3 * op, 3 * back, (3 * len) as nat);
        },
        Step::Elsewhere { len, ofs, dist, form } => {
            lemma_reference(body, ip, len, ofs, dist, form);
            lemma_room(form.extra);
            lemma_before(id, dist);
            lemma_gathered(known(dict)[before(id, dist)], len, ofs, op, all);
        },
    }
}

proof fn lemma_reach(
    head: Seq<u8>,
    row: Seq<Step>,
    tail: Seq<u8>,
    id: u64,
    dict: Dictionary,
    op: int,
    m: int,
    n: int,
    all: Seq<u8>,
)
    requires
        0 <= op,
        m <= n,
        lead_to(row, id, known(dict), op, m, all),
    ensures
        op <= m,
        all.len() == 3 * m,
        from_here(
            head + stream_of(row) + tail,
            n,
            dict,
            id,
            head.len() as int,
            op,
            all.take(3 * op),
        ) == from_here(
            head + stream_of(row) + tail,
            n,
            dict,
            id,
            (head + stream_of(row)).len() as int,
            m,
            all,
        ),
    decreases row.len(),
{
    let body = head + stream_of(row) + tail;
    let ip = head.len() as int;
    if row.len() == 0 {
        assert(all.take(3 * op) =~= all);
        assert(head + stream_of(row) =~= head);
    } else {
        let step = row[0];
        let more = op + step.pixels();
        let code = step.coded();
        let rest = stream_of(row.skip(1));
        lemma_reach(head + code, row.skip(1), tail, id, dict, more, m, n, all);
        assert(head + code + rest + tail =~= body);
        assert(head + code + rest =~= head + stream_of(row));
        assert(body.subrange(ip, ip + code.len()) =~= code);
        lemma_step(body, step, id, dict, ip, op, n, all);
    }
}

proof fn lemma_pass(
    head: Seq<u8>,
    steps: Seq<Step>,
    tail: Seq<u8>,
    id: u64,
    dict: Dictionary,
    op: int,
    n: int,
    all: Seq<u8>,
)
    requires
        0 <= op,
        lead_to(steps, id, known(dict), op, n, all),
    ensures
        op <= n,
        all.len() == 3 * n,
        pass(
            head + stream_of(steps) + tail,
            n,
            dict,
            id,
            head.len() as int,
            op,
            all.take(3 * op),
        ) == Ok::<_, GlzError>(all),
{
    lemma_reach(head, steps, tail, id, dict, op, n, n, all);
    reveal(from_here);
}

/// The stream of a row of steps gives the picture of which the steps speak. A
/// reference to the image `dist` before the one of this id gives the pixels
/// that the dictionary has under the id less `dist`; one within the image
/// gives those that stand that far before; and runs stand as they were given.
pub proof fn rgb32_steps_tell_the_pixels(
    head: Seq<u8>,
    header: GlzHeader,
    dict: Dictionary,
    steps: Seq<Step>,
    bgr: Seq<u8>,
    tail: Seq<u8>,
)
    requires
        head.len() == 33,
        header.image_type == LzImageType::Rgb32,
        0 < header.width,
        0 < header.height,
        crate::glz::codec::size_ok(header.width, header.height),
        lead_to(steps, header.id, known(dict), 0, header.width * header.height, bgr),
    ensures
        rgb32_image(head + stream_of(steps) + tail, header, dict) matches Ok(image) && {
            let n = header.width * header.height;
            &&& image.len() == 4 * n
            &&& forall|p: int, c: int|
                0 <= p < n && 0 <= c < 3 ==> #[trigger] image[4 * p + c] == bgr[3 * p + c]
            &&& forall|p: int| 0 <= p < n ==> #[trigger] image[4 * p + 3] == 0
        },
{
    let n = header.width * header.height;
    assert(n >= 0) by (nonlinear_arith)
        requires
            n == header.width * header.height,
    ;
    lemma_pass(Seq::empty(), steps, tail, header.id, dict, 0, n, bgr);
    let stream = head + stream_of(steps) + tail;
    let body = stream_of(steps) + tail;
    assert(Seq::<u8>::empty() + stream_of(steps) + tail =~= body);
    assert(stream.skip(33) =~= body);
    assert(bgr.take(3int * 0) =~= Seq::<u8>::empty());
}

/// A body that is one reference of two images back, in an image of as many
/// pixels, gives the pixels of the image before the last, whatever the last
/// one holds.
pub proof fn two_back_is_not_the_last(
    head: Seq<u8>,
    header: GlzHeader,
    images: Map<u64, Image>,
    first: Seq<u8>,
    last: Seq<u8>,
    bpp: u32,
)
    requires
        head.len() == 33,
        header.image_type == LzImageType::Rgb32,
        0 < header.width,
        header.height == 1,
        header.width <= 6,
        header.id >= 2,
        images == map![
            (header.id - 2) as u64 => Image { pixels: first, bpp },
            (header.id - 1) as u64 => Image { pixels: last, bpp },
        ],
        3 <= bpp,
        first.len() == bpp * header.width,
        last.len() == bpp * header.width,
    ensures
        rgb32_image(head + seq![(32 * header.width) as u8, 0u8, 2u8], header, Some(images))
            matches Ok(image) && {
            &&& image.len() == 4 * header.width
            &&& forall|p: int, c: int|
                0 <= p < header.width && 0 <= c < 3 ==> #[trigger] image[4 * p + c] == first[bpp * p
                    + c]
        },
{
    let w = header.width as int;
    let form = Form { wide: false, far: false, extra: 0 };
    let step = Step::Elsewhere { len: w, ofs: 0, dist: 2, form };
    let row = seq![step];
    let bgr = Seq::new((3 * w) as nat, |q: int| first[bpp * (q / 3) + q % 3]);
    assert(header.width * header.height == w) by (nonlinear_arith)
        requires
            header.height == 1,
            w == header.width,
    ;
    reveal_with_fuel(room, 2);
    assert(before(header.id, 2) == header.id - 2);
    assert((0 + w) * bpp == bpp * w) by (nonlinear_arith);
    assert((0 + w - 1) * bpp == bpp * w - bpp) by (nonlinear_arith);
    assert(step.fits(header.id, images, 0));
    assert(step.says(header.id, images, 0, bgr)) by {
        let image = images[before(header.id, 2)];
        assert forall|k: int, c: int| 0 <= k < w && 0 <= c < 3 implies #[trigger] bgr[3 * (0 + k)
            + c] == image.pixels[(0 + k) * image.bpp + c] by {
            assert((0 + k) * bpp == bpp * k) by (nonlinear_arith);
            assert((3 * k + c) / 3 == k && (3 * k + c) % 3 == c);
        }
    }
    assert(row.skip(1) =~= Seq::<Step>::empty());
    assert(lead_to(row.skip(1), header.id, images, w, w, bgr));
    assert(lead_to(row, header.id, images, 0, w, bgr));
    assert(stream_of(row.skip(1)) =~= Seq::<u8>::empty());
    assert(low_bytes(2int / 64, 0) =~= Seq::<u8>::empty());
    assert(stream_of(row) =~= seq![(32 * w) as u8, 0u8, 2u8]);
    rgb32_steps_tell_the_pixels(head, header, Some(images), row, bgr, Seq::empty());
    assert(head + stream_of(row) + Seq::<u8>::empty() =~= head + seq![(32 * w) as u8, 0u8, 2u8]);
    let image = rgb32_image(
        head + seq![(32 * header.width) as u8, 0u8, 2u8],
        header,
        Some(images),
    )->Ok_0;
    assert forall|p: int, c: int| 0 <= p < header.width && 0 <= c < 3 implies #[trigger] image[4 * p
        + c] == first[bpp * p + c] by {
        assert((3 * p + c) / 3 == p && (3 * p + c) % 3 == c);
        assert(bgr[3 * p + c] == first[bpp * p + c]);
    }
}

/// A reference to an image that the dictionary lacks is refused, and the answer
/// says how many images back it went.
pub proof fn missing_images_are_named(
    head: Seq<u8>,
    header: GlzHeader,
    dict: Dictionary,
    steps: Seq<Step>,
    m: int,
    bgr: Seq<u8>,
    len: int,
    ofs: int,
    dist: int,
    form: Form,
    tail: Seq<u8>,
)
    requires
        head.len() == 33,
        header.image_type == LzImageType::Rgb32,
        0 < header.width,
        0 < header.height,
        crate::glz::codec::size_ok(header.width, header.height),
        lead_to(steps, header.id, known(dict), 0, m, bgr),
        1 <= len,
        m + len <= header.width * header.height,
        1 <= dist,
        holds(form, ofs, dist),
        !known(dict).dom().contains(before(header.id, dist)),
    ensures
        rgb32_image(head + stream_of(steps) + code_of(len, ofs, dist, form) + tail, header, dict)
            == Err::<Seq<u8>, GlzError>(GlzError::CrossImage { dist: dist as u32 }),
{
    let n = header.width * header.height;
    let none = Seq::<u8>::empty();
    let first = stream_of(steps);
    let code = code_of(len, ofs, dist, form);
    let body = first + code + tail;
    lemma_reach(none, steps, code + tail, header.id, dict, 0, m, n, bgr);
    reveal(from_here);
    assert(none + first + (code + tail) =~= body);
    assert(none + first =~= first);
    assert(bgr.take(3int * 0) =~= none);
    assert((head + first + code + tail).skip(33) =~= body);
    let ip = first.len() as int;
    assert(body.subrange(ip, ip + code.len()) =~= code);
    lemma_reference(body, ip, len, ofs, dist, form);
    lemma_room(form.extra);
    lemma_before(header.id, dist);
}

} // verus!
