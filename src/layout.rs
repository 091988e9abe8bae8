//! Description of the interleaved per-vertex record: which run of components
//! holds the position, the normal, the colour, the texture coordinates.
use vstd::prelude::*;
use vstd::string::StringExecFns;

verus! {

/// The semantic role of one attribute inside a vertex record.
#[derive(Clone, Copy, PartialEq, Eq, Debug, Structural)]
pub enum AttribType {
    Position,
    Normal,
    ColorRgb,
    ColorRgba,
    Uv,
    Custom,
}

/// The name under which an attribute type is printed in messages.
pub open spec fn attrib_type_name(t: AttribType) -> Seq<char> {
    match t {
        AttribType::Position => "Position"@,
        AttribType::Normal => "Normal"@,
        AttribType::ColorRgb => "ColorRgb"@,
        AttribType::ColorRgba => "ColorRgba"@,
        AttribType::Uv => "Uv"@,
        AttribType::Custom => "Custom"@,
    }
}

impl AttribType {
    /// The variant's name, as it appears in lookup errors.
    pub fn name(&self) -> (r: &'static str)
        ensures
            r@ == attrib_type_name(*self),
    {
        match self {
            AttribType::Position => "Position",
            AttribType::Normal => "Normal",
            AttribType::ColorRgb => "ColorRgb",
            AttribType::ColorRgba => "ColorRgba",
            AttribType::Uv => "Uv",
            AttribType::Custom => "Custom",
        }
    }
}

/// Sum of a sequence of component counts.
pub open spec fn seq_sum(s: Seq<nat>) -> nat
    decreases s.len(),
{
    if s.len() == 0 {
        0
    } else {
        seq_sum(s.drop_last()) + s.last()
    }
}

/// The sum of a prefix never exceeds the sum of a longer prefix.
pub proof fn lemma_seq_sum_prefix(s: Seq<nat>, i: int, j: int)
    requires
        0 <= i <= j <= s.len(),
    ensures
        seq_sum(s.take(i)) <= seq_sum(s.take(j)),
    decreases j - i,
{
    if i < j {
        lemma_seq_sum_prefix(s, i, j - 1);
        assert(s.take(j).drop_last() =~= s.take(j - 1));
    }
}

/// Taking one more element adds that element to the sum.
pub proof fn lemma_seq_sum_step(s: Seq<nat>, i: int)
    requires
        0 <= i < s.len(),
    ensures
        seq_sum(s.take(i + 1)) == seq_sum(s.take(i)) + s[i],
{
    assert(s.take(i + 1).drop_last() =~= s.take(i));
}

/// What one attribute says, as mathematical values.
pub ghost struct AttribView {
    pub name: Seq<char>,
    pub a_type: AttribType,
    pub length: nat,
    pub offset: nat,
    pub stride: nat,
}

/// One semantic field of an interleaved vertex record: `length` components
/// starting at `offset`, in records of `stride` components.
pub struct Attrib {
    name: String,
    length: u8,
    offset: usize,
    stride: usize,
    a_type: AttribType,
}

impl View for Attrib {
    type V = AttribView;

    closed spec fn view(&self) -> AttribView {
        AttribView {
            name: self.name@,
            a_type: self.a_type,
            length: self.length as nat,
            offset: self.offset as nat,
            stride: self.stride as nat,
        }
    }
}

impl Clone for Attrib {
    fn clone(&self) -> (r: Attrib)
        ensures
            r@ == self@,
    {
        Attrib {
            name: self.name.clone(),
            length: self.length,
            offset: self.offset,
            stride: self.stride,
            a_type: self.a_type,
        }
    }
}

impl Attrib {
    pub fn name(&self) -> (r: &str)
        ensures
            r@ == self@.name,
    {
        self.name.as_str()
    }

    pub fn length(&self) -> (r: u8)
        ensures
            r as nat == self@.length,
    {
        self.length
    }

    pub fn offset(&self) -> (r: usize)
        ensures
            r as nat == self@.offset,
    {
        self.offset
    }

    pub fn stride(&self) -> (r: usize)
        ensures
            r as nat == self@.stride,
    {
        self.stride
    }

    pub fn a_type(&self) -> (r: AttribType)
        ensures
            r == self@.a_type,
    {
        self.a_type
    }
}

/// The component counts of a list of attributes, in order.
pub open spec fn lengths_of(attribs: Seq<AttribView>) -> Seq<nat> {
    attribs.map_values(|a: AttribView| a.length)
}

/// What a layout says, as mathematical values.
pub ghost struct LayoutView {
    pub attribs: Seq<AttribView>,
    pub stride: nat,
}

impl LayoutView {
    /// Each attribute starts where the previous one ends, the first at zero;
    /// the record's stride is the sum of all lengths and is known to each
    /// attribute.
    pub open spec fn wf(self) -> bool {
        &&& self.stride == seq_sum(lengths_of(self.attribs))
        &&& forall|i: int|
            0 <= i < self.attribs.len() ==> (#[trigger] self.attribs[i]).offset == seq_sum(
                lengths_of(self.attribs).take(i),
            )
        &&& forall|i: int| 0 <= i < self.attribs.len() ==> (#[trigger] self.attribs[i]).stride == self.stride
    }
}

/// Each attribute of a well-formed layout lies inside the record.
pub proof fn lemma_attrib_in_record(l: LayoutView, i: int)
    requires
        l.wf(),
        0 <= i < l.attribs.len(),
    ensures
        l.attribs[i].offset + l.attribs[i].length <= l.stride,
{
    let lens = lengths_of(l.attribs);
    lemma_seq_sum_step(lens, i);
    lemma_seq_sum_prefix(lens, i + 1, lens.len() as int);
    assert(lens.take(lens.len() as int) =~= lens);
}

/// `i` is the last attribute of `l` called `name`.
pub open spec fn is_last_named(l: LayoutView, name: Seq<char>, i: int) -> bool {
    &&& 0 <= i < l.attribs.len()
    &&& l.attribs[i].name == name
    &&& forall|j: int| i < j < l.attribs.len() ==> l.attribs[j].name != name
}

/// No attribute of `l` is called `name`.
pub open spec fn has_no_name(l: LayoutView, name: Seq<char>) -> bool {
    forall|i: int| 0 <= i < l.attribs.len() ==> l.attribs[i].name != name
}

/// `i` is the first attribute of `l` of type `t`.
pub open spec fn is_first_of_type(l: LayoutView, t: AttribType, i: int) -> bool {
    &&& 0 <= i < l.attribs.len()
    &&& l.attribs[i].a_type == t
    &&& forall|j: int| 0 <= j < i ==> l.attribs[j].a_type != t
}

/// No attribute of `l` has type `t`.
pub open spec fn has_no_type(l: LayoutView, t: AttribType) -> bool {
    forall|i: int| 0 <= i < l.attribs.len() ==> l.attribs[i].a_type != t
}

/// The last attribute of `l` called `name`, where there is one.
pub open spec fn last_named(l: LayoutView, name: Seq<char>) -> int {
    choose|i: int| is_last_named(l, name, i)
}

/// The first attribute of `l` of type `t`, where there is one.
pub open spec fn first_of_type(l: LayoutView, t: AttribType) -> int {
    choose|i: int| is_first_of_type(l, t, i)
}

/// There is at most one last attribute of a name, and `last_named` finds it.
pub proof fn lemma_last_named(l: LayoutView, name: Seq<char>, i: int)
    requires
        is_last_named(l, name, i),
    ensures
        last_named(l, name) == i,
        !has_no_name(l, name),
{
    let j = last_named(l, name);
    assert(is_last_named(l, name, j));
    assert(l.attribs[i].name == name);
}

/// There is at most one first attribute of a type, and `first_of_type` finds it.
pub proof fn lemma_first_of_type(l: LayoutView, t: AttribType, i: int)
    requires
        is_first_of_type(l, t, i),
    ensures
        first_of_type(l, t) == i,
        !has_no_type(l, t),
{
    let j = first_of_type(l, t);
    assert(is_first_of_type(l, t, j));
    assert(l.attribs[i].a_type == t);
}

/// The message of a failed lookup by name.
pub open spec fn missing_name_message(name: Seq<char>) -> Seq<char> {
    "could not find Attrib with name '"@ + name + "' in AttribArray"@
}

/// The message of a failed lookup by type.
pub open spec fn missing_type_message(t: AttribType) -> Seq<char> {
    "could not find Attrib with type '"@ + attrib_type_name(t) + "' in AttribArray"@
}

/// The ordered attributes of a vertex record, together with its stride.
pub struct AttribArray {
    attribs: Vec<Attrib>,
    stride: usize,
}

impl View for AttribArray {
    type V = LayoutView;

    closed spec fn view(&self) -> LayoutView {
        LayoutView { attribs: self.attribs@.map_values(|a: Attrib| a@), stride: self.stride as nat }
    }
}

impl AttribArray {
    #[verifier::type_invariant]
    pub open spec fn inv(&self) -> bool {
        self@.wf()
    }
}

impl Clone for AttribArray {
    fn clone(&self) -> (r: AttribArray)
        ensures
            r@ == self@,
    {
        proof {
            use_type_invariant(self);
        }
        let mut attribs: Vec<Attrib> = Vec::with_capacity(self.attribs.len());
        let mut i: usize = 0;
        while i < self.attribs.len()
            invariant
                i <= self.attribs.len(),
                attribs.len() == i,
                forall|k: int| 0 <= k < i ==> (#[trigger] attribs@[k])@ == self.attribs@[k]@,
            decreases self.attribs.len() - i,
        {
            attribs.push(self.attribs[i].clone());
            i += 1;
        }
        assert(attribs@.map_values(|a: Attrib| a@) =~= self.attribs@.map_values(|a: Attrib| a@));
        AttribArray { attribs, stride: self.stride }
    }
}

impl AttribArray {
    /// Number of components in one vertex record.
    pub fn stride(&self) -> (r: usize)
        ensures
            r as nat == self@.stride,
    {
        self.stride
    }

    /// Number of attributes.
    pub fn len(&self) -> (r: usize)
        ensures
            r == self@.attribs.len(),
    {
        self.attribs.len()
    }

    pub fn by_index(&self, index: usize) -> (r: &Attrib)
        requires
            index < self@.attribs.len(),
        ensures
            r@ == self@.attribs[index as int],
    {
        &self.attribs[index]
    }

    /// The attribute called `name`; where several are, the last of them.
    pub fn by_name(&self, name: &str) -> (r: Result<&Attrib, String>)
        ensures
            match r {
                Ok(a) => exists|i: int| is_last_named(self@, name@, i) && a@ == self@.attribs[i],
                Err(m) => has_no_name(self@, name@) && m@ == missing_name_message(name@),
            },
    {
        let key = String::from_str(name);
        let mut i: usize = self.attribs.len();
        while i > 0
            invariant
                i <= self.attribs.len(),
                key@ == name@,
                forall|j: int| i <= j < self@.attribs.len() ==> self@.attribs[j].name != name@,
            decreases i,
        {
            i -= 1;
            if self.attribs[i].name == key {
                assert(self@.attribs[i as int] == self.attribs@[i as int]@);
                return Ok(&self.attribs[i]);
            }
        }
        let mut m = String::from_str("could not find Attrib with name '");
        m.append(name);
        m.append("' in AttribArray");
        Err(m)
    }

    /// The first attribute of type `a_type`.
    pub fn by_type(&self, a_type: AttribType) -> (r: Result<&Attrib, String>)
        ensures
            match r {
                Ok(a) => exists|i: int| is_first_of_type(self@, a_type, i) && a@ == self@.attribs[i],
                Err(m) => has_no_type(self@, a_type) && m@ == missing_type_message(a_type),
            },
    {
        let mut i: usize = 0;
        while i < self.attribs.len()
            invariant
                i <= self.attribs.len(),
                forall|j: int| 0 <= j < i ==> self@.attribs[j].a_type != a_type,
            decreases self.attribs.len() - i,
        {
            if self.attribs[i].a_type == a_type {
                assert(self@.attribs[i as int] == self.attribs@[i as int]@);
                return Ok(&self.attribs[i]);
            }
            i += 1;
        }
        let mut m = String::from_str("could not find Attrib with type '");
        m.append(a_type.name());
        m.append("' in AttribArray");
        Err(m)
    }
}

/// One attribute as handed to the builder: name, role and component count.
pub type PushedAttrib = (Seq<char>, AttribType, nat);

/// The component counts of pushed attributes, in order.
pub open spec fn pushed_lengths(p: Seq<PushedAttrib>) -> Seq<nat> {
    p.map_values(|e: PushedAttrib| e.2)
}

/// `built` keeps the pushed attributes in order, each at the sum of the
/// lengths pushed before it, in records as long as all of them together.
pub open spec fn built_from(pushed: Seq<PushedAttrib>, built: LayoutView) -> bool {
    &&& built.attribs.len() == pushed.len()
    &&& built.stride == seq_sum(pushed_lengths(pushed))
    &&& forall|i: int|
        0 <= i < pushed.len() ==> {
            &&& (#[trigger] built.attribs[i]).name == pushed[i].0
            &&& built.attribs[i].a_type == pushed[i].1
            &&& built.attribs[i].length == pushed[i].2
            &&& built.attribs[i].offset == seq_sum(pushed_lengths(pushed).take(i))
            &&& built.attribs[i].stride == built.stride
        }
}

/// Collects attributes in call order; `build` lays them out one after another.
pub struct AttribArrayBuilder {
    names: Vec<String>,
    types: Vec<AttribType>,
    lengths: Vec<usize>,
    stride: usize,
}

impl View for AttribArrayBuilder {
    type V = Seq<PushedAttrib>;

    closed spec fn view(&self) -> Seq<PushedAttrib> {
        pushed_view(self.names@, self.types@, self.lengths@)
    }
}

spec fn pushed_view(names: Seq<String>, types: Seq<AttribType>, lengths: Seq<usize>) -> Seq<
    PushedAttrib,
> {
    Seq::new(names.len(), |i: int| (names[i]@, types[i], lengths[i] as nat))
}

impl AttribArrayBuilder {
    #[verifier::type_invariant]
    closed spec fn inv(&self) -> bool {
        &&& self.types@.len() == self.names@.len()
        &&& self.lengths@.len() == self.names@.len()
        &&& forall|i: int| 0 <= i < self.lengths@.len() ==> #[trigger] self.lengths@[i] <= 255
        &&& self.stride == seq_sum(pushed_lengths(self@))
    }

    /// A builder with no attribute yet.
    pub fn new() -> (r: AttribArrayBuilder)
        ensures
            r@ == Seq::<PushedAttrib>::empty(),
            seq_sum(pushed_lengths(r@)) == 0,
    {
        let r = AttribArrayBuilder {
            names: Vec::new(),
            types: Vec::new(),
            lengths: Vec::new(),
            stride: 0,
        };
        assert(pushed_lengths(r@) =~= Seq::<nat>::empty());
        r
    }

    /// Appends an attribute of type `Custom`.
    pub fn push_custom(self, name: &str, len: u8) -> (r: AttribArrayBuilder)
        requires
            seq_sum(pushed_lengths(self@)) + len <= usize::MAX,
        ensures
            r@ == self@.push((name@, AttribType::Custom, len as nat)),
            seq_sum(pushed_lengths(r@)) == seq_sum(pushed_lengths(self@)) + len,
    {
        self.push(name, len, AttribType::Custom)
    }

    /// Appends an attribute of `len` components.
    pub fn push(self, name: &str, len: u8, a_type: AttribType) -> (r: AttribArrayBuilder)
        requires
            seq_sum(pushed_lengths(self@)) + len <= usize::MAX,
        ensures
            r@ == self@.push((name@, a_type, len as nat)),
            seq_sum(pushed_lengths(r@)) == seq_sum(pushed_lengths(self@)) + len,
    {
        proof {
            use_type_invariant(&self);
        }
        let ghost before = self@;
        let AttribArrayBuilder { mut names, mut types, mut lengths, stride } = self;
        names.push(String::from_str(name));
        types.push(a_type);
        lengths.push(len as usize);
        let ghost after = pushed_view(names@, types@, lengths@);
        assert(after =~= before.push((name@, a_type, len as nat)));
        assert(pushed_lengths(after).drop_last() =~= pushed_lengths(before));
        AttribArrayBuilder { names, types, lengths, stride: stride + len as usize }
    }

    /// Lays the attributes out one after another, in the order pushed.
    pub fn build(self) -> (r: AttribArray)
        ensures
            built_from(self@, r@),
    {
        proof {
            use_type_invariant(&self);
        }
        let ghost lens = pushed_lengths(self@);
        let mut attribs: Vec<Attrib> = Vec::with_capacity(self.names.len());
        let mut offset: usize = 0;
        let mut i: usize = 0;
        while i < self.names.len()
            invariant
                i <= self.names@.len(),
                self.types@.len() == self.names@.len(),
                self.lengths@.len() == self.names@.len(),
                lens == pushed_lengths(self@),
                lens.len() == self.names@.len(),
                forall|k: int| 0 <= k < self.lengths@.len() ==> #[trigger] self.lengths@[k] <= 255,
                self.stride == seq_sum(lens),
                offset == seq_sum(lens.take(i as int)),
                attribs@.len() == i,
                forall|k: int|
                    0 <= k < i ==> {
                        &&& (#[trigger] attribs@[k])@.name == self@[k].0
                        &&& attribs@[k]@.a_type == self@[k].1
                        &&& attribs@[k]@.length == self@[k].2
                        &&& attribs@[k]@.offset == seq_sum(lens.take(k))
                        &&& attribs@[k]@.stride == self.stride
                    },
            decreases self.names@.len() - i,
        {
            assert(self@[i as int].2 == self.lengths@[i as int]);
            proof {
                lemma_seq_sum_step(lens, i as int);
                lemma_seq_sum_prefix(lens, i as int + 1, lens.len() as int);
                assert(lens.take(lens.len() as int) =~= lens);
            }
            attribs.push(
                Attrib {
                    name: self.names[i].clone(),
                    length: self.lengths[i] as u8,
                    a_type: self.types[i],
                    offset: offset,
                    stride: self.stride,
                },
            );
            assert(attribs@[i as int]@.name == self@[i as int].0);
            offset = offset + self.lengths[i];
            i += 1;
        }
        assert(lengths_of(attribs@.map_values(|a: Attrib| a@)) =~= lens);
        AttribArray { attribs, stride: self.stride }
    }
}

/// Whatever was pushed, the built layout's stride is the sum of the pushed
/// lengths, each attribute ends exactly where the next one begins (so no two
/// overlap), every attribute lies inside the record, and when no pushed length
/// is zero the offsets strictly increase.
pub proof fn lemma_build_layout(pushed: Seq<PushedAttrib>, built: LayoutView)
    requires
        built_from(pushed, built),
    ensures
        built.stride == seq_sum(pushed_lengths(pushed)),
        forall|i: int|
            0 <= i < built.attribs.len() - 1 ==> #[trigger] built.attribs[i].offset
                + built.attribs[i].length == built.attribs[i + 1].offset,
        forall|i: int|
            0 <= i < built.attribs.len() ==> #[trigger] built.attribs[i].offset
                + built.attribs[i].length <= built.stride,
        (forall|i: int| 0 <= i < pushed.len() ==> #[trigger] pushed[i].2 > 0) ==> forall|
            i: int,
            j: int,
        |
            0 <= i < j < built.attribs.len() ==> #[trigger] built.attribs[i].offset
                < #[trigger] built.attribs[j].offset,
{
    let lens = pushed_lengths(pushed);
    assert forall|i: int| 0 <= i < built.attribs.len() - 1 implies #[trigger] built.attribs[i].offset
        + built.attribs[i].length == built.attribs[i + 1].offset by {
        lemma_seq_sum_step(lens, i);
    }
    assert forall|i: int| 0 <= i < built.attribs.len() implies #[trigger] built.attribs[i].offset
        + built.attribs[i].length <= built.stride by {
        lemma_seq_sum_step(lens, i);
        lemma_seq_sum_prefix(lens, i + 1, lens.len() as int);
        assert(lens.take(lens.len() as int) =~= lens);
    }
    if forall|i: int| 0 <= i < pushed.len() ==> #[trigger] pushed[i].2 > 0 {
        assert forall|i: int, j: int| 0 <= i < j < built.attribs.len() implies #[trigger] built.attribs[i].offset
            < #[trigger] built.attribs[j].offset by {
            lemma_seq_sum_step(lens, i);
            lemma_seq_sum_prefix(lens, i + 1, j);
        }
    }
}

} // verus!
