//! Plain-value tensors: the shape-carrying integer and boolean containers
//! the engine's logic reads. The numeric backend with its operators stays
//! outside; these types model exactly what the engine needs of a tensor:
//! its shape, its flat values in row-major order, and its device tag.

use vstd::prelude::*;

verus! {

/// A compute device, named by index; index 0 is the reduction target of a
/// multi-device step.
#[derive(Clone, Copy, PartialEq, Eq, Structural, Debug)]
pub struct Device(pub u64);

impl Default for Device {
    /// The default device is device 0.
    fn default() -> (d: Self)
        ensures
            d == Device(0),
    {
        Device(0)
    }
}

/// How many scalar values a tensor of this shape holds.
pub open spec fn size_of(shape: Seq<usize>) -> nat
    decreases shape.len(),
{
    if shape.len() == 0 {
        1
    } else {
        (shape[0] * size_of(shape.drop_first())) as nat
    }
}

/// A tensor's raw contents: flat values in row-major order, plus the
/// shape.
pub struct Data<T> {
    pub value: Vec<T>,
    pub shape: Vec<usize>,
}

impl<T> Data<T> {
    pub open spec fn wf(&self) -> bool {
        self.value@.len() == size_of(self.shape@)
    }

    pub fn new(value: Vec<T>, shape: Vec<usize>) -> (d: Self)
        ensures
            d.value == value,
            d.shape == shape,
    {
        Data { value, shape }
    }
}

/// A tensor of integer values on some device.
pub struct IntTensor {
    pub shape: Vec<usize>,
    pub values: Vec<i64>,
    pub device: Device,
}

impl IntTensor {
    pub open spec fn wf(&self) -> bool {
        self.values@.len() == size_of(self.shape@)
    }
}

/// A tensor of boolean values on some device.
pub struct BoolTensor {
    shape: Vec<usize>,
    values: Vec<bool>,
    device: Device,
}

impl BoolTensor {
    /// The shape.
    pub closed spec fn shape_view(&self) -> Seq<usize> {
        self.shape@
    }

    /// The flat values, in row-major order.
    pub closed spec fn values_view(&self) -> Seq<bool> {
        self.values@
    }

    /// The device holding the tensor.
    pub closed spec fn device_view(&self) -> Device {
        self.device
    }

    pub closed spec fn wf(&self) -> bool {
        self.values@.len() == size_of(self.shape@)
    }

    /// A tensor holding exactly the given raw contents.
    pub fn from_data(data: Data<bool>, device: Device) -> (t: Self)
        requires
            data.wf(),
        ensures
            t.wf(),
            t.values_view() == data.value@,
            t.shape_view() == data.shape@,
            t.device_view() == device,
    {
        BoolTensor { shape: data.shape, values: data.value, device }
    }

    /// The tensor's shape.
    pub fn shape(&self) -> (s: &Vec<usize>)
        ensures
            s@ == self.shape_view(),
    {
        &self.shape
    }

    /// A copy of the raw contents, leaving the tensor in place.
    pub fn to_data(&self) -> (d: Data<bool>)
        requires
            self.wf(),
        ensures
            d.wf(),
            d.value@ == self.values_view(),
            d.shape@ == self.shape_view(),
    {
        let mut value: Vec<bool> = Vec::new();
        let mut i: usize = 0;
        while i < self.values.len()
            invariant
                i <= self.values@.len(),
                value@ == self.values@.take(i as int),
            decreases self.values@.len() - i,
        {
            value.push(self.values[i]);
            proof {
                assert(self.values@.take(i + 1) =~= self.values@.take(i as int).push(
                    self.values@[i as int],
                ));
            }
            i = i + 1;
        }
        proof {
            assert(self.values@.take(self.values@.len() as int) =~= self.values@);
        }
        let mut shape: Vec<usize> = Vec::new();
        let mut k: usize = 0;
        while k < self.shape.len()
            invariant
                k <= self.shape@.len(),
                shape@ == self.shape@.take(k as int),
            decreases self.shape@.len() - k,
        {
            shape.push(self.shape[k]);
            proof {
                assert(self.shape@.take(k + 1) =~= self.shape@.take(k as int).push(
                    self.shape@[k as int],
                ));
            }
            k = k + 1;
        }
        proof {
            assert(self.shape@.take(self.shape@.len() as int) =~= self.shape@);
        }
        Data { value, shape }
    }

    /// The raw contents, consuming the tensor.
    pub fn into_data(self) -> (d: Data<bool>)
        requires
            self.wf(),
        ensures
            d.wf(),
            d.value@ == self.values_view(),
            d.shape@ == self.shape_view(),
    {
        Data { value: self.values, shape: self.shape }
    }

    /// Moves the tensor to `device`; shape and values are untouched.
    pub fn to_device(self, device: Device) -> (t: Self)
        ensures
            t.values_view() == self.values_view(),
            t.shape_view() == self.shape_view(),
            t.device_view() == device,
    {
        BoolTensor { device, ..self }
    }

    /// The device holding the tensor.
    pub fn device(&self) -> (d: Device)
        ensures
            d == self.device_view(),
    {
        self.device
    }

    /// A tensor of the given shape, every value false.
    pub fn empty(shape: Vec<usize>, device: Device) -> (t: Self)
        requires
            size_of(shape@) <= usize::MAX,
        ensures
            t.wf(),
            t.shape_view() == shape@,
            t.values_view() == Seq::new(size_of(shape@), |i: int| false),
            t.device_view() == device,
    {
        let n = numel(&shape);
        let mut values: Vec<bool> = Vec::new();
        let mut i: usize = 0;
        while i < n
            invariant
                i <= n,
                values@.len() == i,
                forall|j: int| 0 <= j < i ==> #[trigger] values@[j] == false,
            decreases n - i,
        {
            values.push(false);
            i = i + 1;
        }
        proof {
            assert(values@ =~= Seq::new(size_of(shape@), |i: int| false));
        }
        BoolTensor { shape, values, device }
    }

    /// Reinterprets the flat values under a new shape of the same size.
    pub fn reshape(self, shape: Vec<usize>) -> (t: Self)
        requires
            self.wf(),
            size_of(shape@) == size_of(self.shape_view()),
        ensures
            t.wf(),
            t.shape_view() == shape@,
            t.values_view() == self.values_view(),
            t.device_view() == self.device_view(),
    {
        BoolTensor { shape, ..self }
    }

    /// Elementwise equality of two tensors of one shape.
    pub fn equal(self, rhs: BoolTensor) -> (t: Self)
        requires
            self.wf(),
            rhs.wf(),
            self.shape_view() == rhs.shape_view(),
        ensures
            t.wf(),
            t.shape_view() == self.shape_view(),
            t.device_view() == self.device_view(),
            t.values_view() == Seq::new(
                self.values_view().len(),
                |i: int| self.values_view()[i] == rhs.values_view()[i],
            ),
    {
        let n = self.values.len();
        let mut values: Vec<bool> = Vec::new();
        let mut i: usize = 0;
        while i < n
            invariant
                n == self.values@.len(),
                n == rhs.values@.len(),
                i <= n,
                values@.len() == i,
                forall|j: int|
                    0 <= j < i ==> #[trigger] values@[j] == (self.values@[j] == rhs.values@[j]),
            decreases n - i,
        {
            values.push(self.values[i] == rhs.values[i]);
            i = i + 1;
        }
        proof {
            assert(values@ =~= Seq::new(
                self.values_view().len(),
                |i: int| self.values_view()[i] == rhs.values_view()[i],
            ));
        }
        BoolTensor { shape: self.shape, values, device: self.device }
    }

    /// Elementwise equality against one value.
    pub fn equal_elem(self, rhs: bool) -> (t: Self)
        requires
            self.wf(),
        ensures
            t.wf(),
            t.shape_view() == self.shape_view(),
            t.device_view() == self.device_view(),
            t.values_view() == Seq::new(
                self.values_view().len(),
                |i: int| self.values_view()[i] == rhs,
            ),
    {
        let n = self.values.len();
        let mut values: Vec<bool> = Vec::new();
        let mut i: usize = 0;
        while i < n
            invariant
                n == self.values@.len(),
                i <= n,
                values@.len() == i,
                forall|j: int| 0 <= j < i ==> #[trigger] values@[j] == (self.values@[j] == rhs),
            decreases n - i,
        {
            values.push(self.values[i] == rhs);
            i = i + 1;
        }
        proof {
            assert(values@ =~= Seq::new(
                self.values_view().len(),
                |i: int| self.values_view()[i] == rhs,
            ));
        }
        BoolTensor { shape: self.shape, values, device: self.device }
    }

    /// Converts to an integer tensor: true becomes 1, false 0.
    pub fn into_int(self) -> (t: IntTensor)
        requires
            self.wf(),
        ensures
            t.wf(),
            t.shape@ == self.shape_view(),
            t.device == self.device_view(),
            t.values@ == Seq::new(
                self.values_view().len(),
                |i: int|
                    if self.values_view()[i] {
                        1i64
                    } else {
                        0i64
                    },
            ),
    {
        let n = self.values.len();
        let mut values: Vec<i64> = Vec::new();
        let mut i: usize = 0;
        while i < n
            invariant
                n == self.values@.len(),
                i <= n,
                values@.len() == i,
                forall|j: int|
                    0 <= j < i ==> #[trigger] values@[j] == (if self.values@[j] {
                        1i64
                    } else {
                        0i64
                    }),
            decreases n - i,
        {
            values.push(if self.values[i] {
                1i64
            } else {
                0i64
            });
            i = i + 1;
        }
        proof {
            assert(values@ =~= Seq::new(
                self.values_view().len(),
                |i: int|
                    if self.values_view()[i] {
                        1i64
                    } else {
                        0i64
                    },
            ));
        }
        IntTensor { shape: self.shape, values, device: self.device }
    }
}

/// The size splits at any point: values of the whole shape are the
/// product of the values of a prefix and of the rest.
proof fn lemma_size_of_split(s: Seq<usize>, k: int)
    requires
        0 <= k <= s.len(),
    ensures
        size_of(s) == size_of(s.take(k)) * size_of(s.skip(k)),
    decreases k,
{
    if k == 0 {
        assert(s.take(0) =~= Seq::<usize>::empty());
        assert(s.skip(0) =~= s);
        assert(size_of(Seq::<usize>::empty()) == 1);
        assert(size_of(s.take(0)) * size_of(s.skip(0)) == 1 * size_of(s));
        assert(size_of(s) == size_of(s.take(k)) * size_of(s.skip(k)));
    } else {
        let rest = s.drop_first();
        assert(s.take(k).drop_first() =~= rest.take(k - 1));
        assert(s.take(k)[0] == s[0]);
        assert(s.take(k).len() == k);
        assert(s.skip(k) =~= rest.skip(k - 1));
        assert(size_of(s.take(k)) == s.take(k)[0] * size_of(s.take(k).drop_first()));
        assert(size_of(s.take(k)) == s[0] * size_of(rest.take(k - 1)));
        lemma_size_of_split(rest, k - 1);
        assert(size_of(s) == s[0] * size_of(rest));
        assert(size_of(s) == size_of(s.take(k)) * size_of(s.skip(k))) by (nonlinear_arith)
            requires
                size_of(s) == s[0] * size_of(rest),
                size_of(rest) == size_of(rest.take(k - 1)) * size_of(rest.skip(k - 1)),
                size_of(s.take(k)) == s[0] * size_of(rest.take(k - 1)),
                size_of(s.skip(k)) == size_of(rest.skip(k - 1)),
        ;
        assert(size_of(s) == size_of(s.take(k)) * size_of(s.skip(k)));
    }
}

/// A shape whose dimensions are all positive describes at least one value.
proof fn lemma_size_of_pos(s: Seq<usize>)
    requires
        forall|i: int| 0 <= i < s.len() ==> #[trigger] s[i] >= 1,
    ensures
        size_of(s) >= 1,
    decreases s.len(),
{
    if s.len() > 0 {
        let rest = s.drop_first();
        assert(forall|i: int| 0 <= i < rest.len() ==> #[trigger] rest[i] >= 1);
        lemma_size_of_pos(rest);
        assert(s[0] * size_of(rest) >= 1) by (nonlinear_arith)
            requires s[0] >= 1 && size_of(rest) >= 1;
    }
}

/// The number of scalar values of a tensor of shape `shape`.
pub fn numel(shape: &Vec<usize>) -> (n: usize)
    requires
        size_of(shape@) <= usize::MAX,
    ensures
        n == size_of(shape@),
{
    let len = shape.len();
    let mut i: usize = 0;
    while i < len
        invariant
            len == shape@.len(),
            i <= len,
            forall|j: int| 0 <= j < i ==> #[trigger] shape@[j] >= 1,
        decreases len - i,
    {
        if shape[i] == 0 {
            proof {
                lemma_size_of_split(shape@, i as int);
                assert(size_of(shape@.skip(i as int)) == shape@[i as int] * size_of(
                    shape@.skip(i as int).drop_first(),
                ));
                assert(size_of(shape@) == size_of(shape@.take(i as int)) * 0) by (nonlinear_arith)
                    requires
                        size_of(shape@) == size_of(shape@.take(i as int)) * size_of(
                            shape@.skip(i as int),
                        ) && size_of(shape@.skip(i as int)) == 0,
                ;
            }
            return 0;
        }
        i = i + 1;
    }
    let mut n: usize = 1;
    let mut k: usize = 0;
    proof {
        assert(shape@.take(0) =~= Seq::<usize>::empty());
    }
    while k < len
        invariant
            len == shape@.len(),
            k <= len,
            forall|j: int| 0 <= j < len ==> #[trigger] shape@[j] >= 1,
            n == size_of(shape@.take(k as int)),
            size_of(shape@) <= usize::MAX,
        decreases len - k,
    {
        proof {
            lemma_size_of_split(shape@, k + 1);
            lemma_size_of_split(shape@, k as int);
            assert(shape@.take(k + 1).drop_last() =~= shape@.take(k as int));
            lemma_size_of_take_step(shape@, k as int);
            assert(forall|i2: int|
                0 <= i2 < shape@.skip(k + 1).len() ==> #[trigger] shape@.skip(k + 1)[i2] >= 1);
            lemma_size_of_pos(shape@.skip(k + 1));
            assert(size_of(shape@.take(k + 1)) <= size_of(shape@)) by (nonlinear_arith)
                requires
                    size_of(shape@) == size_of(shape@.take(k + 1)) * size_of(shape@.skip(k + 1))
                        && size_of(shape@.skip(k + 1)) >= 1 && size_of(shape@.take(k + 1)) >= 0,
            ;
        }
        n = n * shape[k];
        k = k + 1;
    }
    proof {
        assert(shape@.take(len as int) =~= shape@);
    }
    n
}

/// Extending a prefix by one dimension multiplies its size by it.
proof fn lemma_size_of_take_step(s: Seq<usize>, k: int)
    requires
        0 <= k < s.len(),
    ensures
        size_of(s.take(k + 1)) == size_of(s.take(k)) * s[k],
    decreases k,
{
    if k == 0 {
        assert(s.take(0) =~= Seq::<usize>::empty());
        assert(s.take(1).drop_first() =~= Seq::<usize>::empty());
        assert(size_of(Seq::<usize>::empty()) == 1);
        assert(size_of(s.take(0)) == 1);
        assert(s.take(1).len() == 1);
        assert(s.take(1)[0] == s[0]);
        assert(size_of(s.take(1)) == s.take(1)[0] * size_of(s.take(1).drop_first()));
        assert(size_of(s.take(1)) == s[0] * 1);
        assert(size_of(s.take(1)) == size_of(s.take(0)) * s[0]);
    } else {
        let rest = s.drop_first();
        assert(s.take(k + 1).drop_first() =~= rest.take(k));
        assert(s.take(k + 1)[0] == s[0]);
        assert(s.take(k + 1).len() == k + 1);
        assert(s.take(k).drop_first() =~= rest.take(k - 1));
        assert(s.take(k)[0] == s[0]);
        assert(s.take(k).len() == k);
        assert(rest[k - 1] == s[k]);
        lemma_size_of_take_step(rest, k - 1);
        assert(size_of(s.take(k + 1)) == s.take(k + 1)[0] * size_of(s.take(k + 1).drop_first()));
        assert(size_of(s.take(k + 1)) == s[0] * size_of(rest.take(k)));
        assert(size_of(s.take(k)) == s.take(k)[0] * size_of(s.take(k).drop_first()));
        assert(size_of(s.take(k)) == s[0] * size_of(rest.take(k - 1)));
        assert(size_of(s.take(k + 1)) == size_of(s.take(k)) * s[k]) by (nonlinear_arith)
            requires
                size_of(s.take(k + 1)) == s[0] * size_of(rest.take(k)),
                size_of(rest.take(k)) == size_of(rest.take(k - 1)) * rest[k - 1],
                size_of(s.take(k)) == s[0] * size_of(rest.take(k - 1)),
                rest[k - 1] == s[k],
        ;
    }
}

} // verus!
