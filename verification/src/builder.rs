//! Building an encoded message field by field, without a schema.
//!
//! A builder takes each field number once. Adding a number a second time is a
//! misuse that the contracts rule out; `has_field` says whether a number is
//! taken.

use std::collections::{HashMap, HashSet};
use vstd::prelude::*;
use vstd::std_specs::hash::obeys_key_model;

use crate::Protobuf;
use crate::encoder::{
    bool_field, bytes_field, double_field, encode_bool, encode_bytes, encode_double_bits,
    encode_fixed32, encode_fixed64, encode_float_bits, encode_int32, encode_int64,
    encode_length_delimited, encode_map_entry, encode_map_message_entry, encode_packed,
    encode_repeated, encode_sfixed32, encode_sfixed64, encode_sint32, encode_sint64, encode_string,
    encode_uint32, encode_uint64, entry_frames, fixed32_field, fixed64_field, float_field,
    int32_field, int64_field, length_delimited, sfixed32_field, sfixed64_field, sint32_field,
    sint64_field, string_field, uint32_field, uint64_field,
};
use crate::trace::{is_trace, within};

verus! {

broadcast use vstd::std_specs::hash::group_hash_axioms;

/// An encoded message under construction: the bytes written so far and the
/// field numbers they were written for.
pub struct ProtobufBuilder {
    buffer: Vec<u8>,
    field_numbers: HashSet<u32>,
}

/// `after` is `before` with field `field_number` taken and `written` appended.
pub open spec fn added(
    before: ProtobufBuilder,
    after: ProtobufBuilder,
    field_number: u32,
    written: Seq<u8>,
) -> bool {
    &&& after.bytes() == before.bytes() + written
    &&& after.fields() == before.fields().insert(field_number)
}

/// Two fields added one after the other stand in the buffer in that order, and
/// both their numbers are taken.
pub proof fn lemma_added_in_order(
    start: ProtobufBuilder,
    mid: ProtobufBuilder,
    end: ProtobufBuilder,
    first: u32,
    second: u32,
    first_written: Seq<u8>,
    second_written: Seq<u8>,
)
    requires
        added(start, mid, first, first_written),
        added(mid, end, second, second_written),
    ensures
        end.bytes() == start.bytes() + first_written + second_written,
        end.fields() == start.fields().insert(first).insert(second),
        end.fields().contains(first),
        end.fields().contains(second),
{
}

/// `order` lists the entries of `map`, each once, in some order.
pub open spec fn lists<K, V>(order: Seq<(K, V)>, map: Map<K, V>) -> bool {
    &&& order.len() == map.len()
    &&& order.to_set() == map.kv_pairs()
}

/// The entries of `map` in the order in which the map hands them out.
pub open spec fn listing<K, V>(map: &HashMap<K, V>) -> Seq<(K, V)> {
    vstd::std_specs::hash::into_iter(map.iter())
}

impl Default for ProtobufBuilder {
    fn default() -> (builder: Self)
        ensures
            builder.bytes() == Seq::<u8>::empty(),
            builder.fields() == Set::<u32>::empty(),
    {
        ProtobufBuilder { buffer: Vec::new(), field_numbers: HashSet::new() }
    }
}

impl ProtobufBuilder {
    /// The bytes written so far.
    pub closed spec fn bytes(&self) -> Seq<u8> {
        self.buffer@
    }

    /// The field numbers taken so far.
    pub closed spec fn fields(&self) -> Set<u32> {
        self.field_numbers@
    }

    /// An empty builder.
    pub fn new() -> (builder: Self)
        ensures
            builder.bytes() == Seq::<u8>::empty(),
            builder.fields() == Set::<u32>::empty(),
    {
        ProtobufBuilder { buffer: Vec::new(), field_numbers: HashSet::new() }
    }

    /// Whether `field_number` is taken.
    pub fn has_field(&self, field_number: u32) -> (taken: bool)
        ensures
            taken == self.fields().contains(field_number),
    {
        self.field_numbers.contains(&field_number)
    }

    /// Takes `field_number`.
    fn check_field(&mut self, field_number: u32)
        requires
            !old(self).fields().contains(field_number),
        ensures
            added(*old(self), *final(self), field_number, Seq::empty()),
    {
        self.field_numbers.insert(field_number);
    }

    /// Adds a `uint32` field.
    pub fn add_uint32(&mut self, field_number: u32, value: u32) -> (ret: &mut Self)
        requires
            !old(self).fields().contains(field_number),
        ensures
            added(*old(self), *ret, field_number, uint32_field(field_number, value)),
            *final(self) == *final(ret),
    {
        self.check_field(field_number);
        encode_uint32(field_number, value, &mut self.buffer);
        self
    }

    /// Adds an `int32` field.
    pub fn add_int32(&mut self, field_number: u32, value: i32) -> (ret: &mut Self)
        requires
            !old(self).fields().contains(field_number),
        ensures
            added(*old(self), *ret, field_number, int32_field(field_number, value)),
            *final(self) == *final(ret),
    {
        self.check_field(field_number);
        encode_int32(field_number, value, &mut self.buffer);
        self
    }

    /// Adds an `int64` field.
    pub fn add_int64(&mut self, field_number: u32, value: i64) -> (ret: &mut Self)
        requires
            !old(self).fields().contains(field_number),
        ensures
            added(*old(self), *ret, field_number, int64_field(field_number, value)),
            *final(self) == *final(ret),
    {
        self.check_field(field_number);
        encode_int64(field_number, value, &mut self.buffer);
        self
    }

    /// Adds a `uint64` field.
    pub fn add_uint64(&mut self, field_number: u32, value: u64) -> (ret: &mut Self)
        requires
            !old(self).fields().contains(field_number),
        ensures
            added(*old(self), *ret, field_number, uint64_field(field_number, value)),
            *final(self) == *final(ret),
    {
        self.check_field(field_number);
        encode_uint64(field_number, value, &mut self.buffer);
        self
    }

    /// Adds a `sint32` field.
    pub fn add_sint32(&mut self, field_number: u32, value: i32) -> (ret: &mut Self)
        requires
            !old(self).fields().contains(field_number),
        ensures
            added(*old(self), *ret, field_number, sint32_field(field_number, value)),
            *final(self) == *final(ret),
    {
        self.check_field(field_number);
        encode_sint32(field_number, value, &mut self.buffer);
        self
    }

    /// Adds a `sint64` field.
    pub fn add_sint64(&mut self, field_number: u32, value: i64) -> (ret: &mut Self)
        requires
            !old(self).fields().contains(field_number),
        ensures
            added(*old(self), *ret, field_number, sint64_field(field_number, value)),
            *final(self) == *final(ret),
    {
        self.check_field(field_number);
        encode_sint64(field_number, value, &mut self.buffer);
        self
    }

    /// Adds a `bool` field.
    pub fn add_bool(&mut self, field_number: u32, value: bool) -> (ret: &mut Self)
        requires
            !old(self).fields().contains(field_number),
        ensures
            added(*old(self), *ret, field_number, bool_field(field_number, value)),
            *final(self) == *final(ret),
    {
        self.check_field(field_number);
        encode_bool(field_number, value, &mut self.buffer);
        self
    }

    /// Adds a `string` field.
    pub fn add_string(&mut self, field_number: u32, value: &str) -> (ret: &mut Self)
        requires
            !old(self).fields().contains(field_number),
        ensures
            added(*old(self), *ret, field_number, string_field(field_number, value@)),
            *final(self) == *final(ret),
    {
        self.check_field(field_number);
        encode_string(field_number, value, &mut self.buffer);
        self
    }

    /// Adds a `bytes` field.
    pub fn add_bytes(&mut self, field_number: u32, value: &[u8]) -> (ret: &mut Self)
        requires
            !old(self).fields().contains(field_number),
        ensures
            added(*old(self), *ret, field_number, bytes_field(field_number, value@)),
            *final(self) == *final(ret),
    {
        self.check_field(field_number);
        encode_bytes(field_number, value, &mut self.buffer);
        self
    }

    /// Adds a `float` field, given by the IEEE 754 pattern of its value.
    pub fn add_float_bits(&mut self, field_number: u32, bits: u32) -> (ret: &mut Self)
        requires
            !old(self).fields().contains(field_number),
        ensures
            added(*old(self), *ret, field_number, float_field(field_number, bits)),
            *final(self) == *final(ret),
    {
        self.check_field(field_number);
        encode_float_bits(field_number, bits, &mut self.buffer);
        self
    }

    /// Adds a `double` field, given by the IEEE 754 pattern of its value.
    pub fn add_double_bits(&mut self, field_number: u32, bits: u64) -> (ret: &mut Self)
        requires
            !old(self).fields().contains(field_number),
        ensures
            added(*old(self), *ret, field_number, double_field(field_number, bits)),
            *final(self) == *final(ret),
    {
        self.check_field(field_number);
        encode_double_bits(field_number, bits, &mut self.buffer);
        self
    }

    /// Adds a `fixed32` field.
    pub fn add_fixed32(&mut self, field_number: u32, value: u32) -> (ret: &mut Self)
        requires
            !old(self).fields().contains(field_number),
        ensures
            added(*old(self), *ret, field_number, fixed32_field(field_number, value)),
            *final(self) == *final(ret),
    {
        self.check_field(field_number);
        encode_fixed32(field_number, value, &mut self.buffer);
        self
    }

    /// Adds a `fixed64` field.
    pub fn add_fixed64(&mut self, field_number: u32, value: u64) -> (ret: &mut Self)
        requires
            !old(self).fields().contains(field_number),
        ensures
            added(*old(self), *ret, field_number, fixed64_field(field_number, value)),
            *final(self) == *final(ret),
    {
        self.check_field(field_number);
        encode_fixed64(field_number, value, &mut self.buffer);
        self
    }

    /// Adds an `sfixed32` field.
    pub fn add_sfixed32(&mut self, field_number: u32, value: i32) -> (ret: &mut Self)
        requires
            !old(self).fields().contains(field_number),
        ensures
            added(*old(self), *ret, field_number, sfixed32_field(field_number, value)),
            *final(self) == *final(ret),
    {
        self.check_field(field_number);
        encode_sfixed32(field_number, value, &mut self.buffer);
        self
    }

    /// Adds an `sfixed64` field.
    pub fn add_sfixed64(&mut self, field_number: u32, value: i64) -> (ret: &mut Self)
        requires
            !old(self).fields().contains(field_number),
        ensures
            added(*old(self), *ret, field_number, sfixed64_field(field_number, value)),
            *final(self) == *final(ret),
    {
        self.check_field(field_number);
        encode_sfixed64(field_number, value, &mut self.buffer);
        self
    }

    /// Adds an enum field: the number `value` converts to, as an `int32` field.
    pub fn add_enum<E: Into<i32>>(&mut self, field_number: u32, value: E) -> (ret: &mut Self)
        requires
            !old(self).fields().contains(field_number),
        ensures
            exists|number: i32| #[trigger]
                call_ensures(E::into, (value,), number) && added(
                    *old(self),
                    *ret,
                    field_number,
                    int32_field(field_number, number),
                ),
            *final(self) == *final(ret),
    {
        self.check_field(field_number);
        let convert = E::into;
        let number: i32 = convert(value);
        encode_int32(field_number, number, &mut self.buffer);
        self
    }

    /// Adds a repeated field: `values` written one after the other by
    /// [`encode_repeated`].
    pub fn add_repeated<T, F>(&mut self, field_number: u32, values: &[T], encoder: F) -> (ret:
        &mut Self)
        where F: Fn(u32, &T, &mut Vec<u8>)
        requires
            !old(self).fields().contains(field_number),
            forall|i: int, w: &mut Vec<u8>|
                0 <= i < values@.len() ==> call_requires(encoder, (field_number, &values@[i], w)),
        ensures
            exists|w: &mut Vec<u8>|
                w@ == old(self).bytes() && final(w)@ == ret.bytes() && #[trigger] call_ensures(
                    encode_repeated::<T, F>,
                    (field_number, values, w, encoder),
                    (),
                ),
            ret.fields() == old(self).fields().insert(field_number),
            *final(self) == *final(ret),
    {
        self.check_field(field_number);
        let write = encode_repeated::<T, F>;
        write(field_number, values, &mut self.buffer, encoder);
        self
    }

    /// Adds a packed field: `values` written as one field by [`encode_packed`].
    pub fn add_packed<T, F>(&mut self, field_number: u32, values: &[T], value_writer: F) -> (ret:
        &mut Self)
        where F: Fn(&T, &mut Vec<u8>)
        requires
            !old(self).fields().contains(field_number),
            forall|i: int, w: &mut Vec<u8>|
                0 <= i < values@.len() ==> call_requires(value_writer, (&values@[i], w)),
        ensures
            exists|w: &mut Vec<u8>|
                w@ == old(self).bytes() && final(w)@ == ret.bytes() && #[trigger] call_ensures(
                    encode_packed::<T, F>,
                    (field_number, values, w, value_writer),
                    (),
                ),
            ret.fields() == old(self).fields().insert(field_number),
            *final(self) == *final(ret),
    {
        self.check_field(field_number);
        let write = encode_packed::<T, F>;
        write(field_number, values, &mut self.buffer, value_writer);
        self
    }

    /// Adds an embedded message: what `message` has built so far, as a
    /// length-delimited field. An empty message is written too.
    pub fn add_message(&mut self, field_number: u32, message: ProtobufBuilder) -> (ret: &mut Self)
        requires
            !old(self).fields().contains(field_number),
        ensures
            added(
                *old(self),
                *ret,
                field_number,
                length_delimited(field_number, message.bytes()),
            ),
            *final(self) == *final(ret),
    {
        self.check_field(field_number);
        encode_length_delimited(field_number, message.buffer.as_slice(), &mut self.buffer);
        self
    }

    /// Adds a repeated message field: what each of `messages` has built, each
    /// as a length-delimited field of its own, in order.
    pub fn add_repeated_message(
        &mut self,
        field_number: u32,
        messages: Vec<ProtobufBuilder>,
    ) -> (ret: &mut Self)
        requires
            !old(self).fields().contains(field_number),
        ensures
            added(
                *old(self),
                *ret,
                field_number,
                entry_frames(
                    field_number,
                    Seq::new(messages@.len(), |i: int| messages@[i].bytes()),
                ),
            ),
            *final(self) == *final(ret),
    {
        self.check_field(field_number);
        let ghost payloads = Seq::new(messages@.len(), |i: int| messages@[i].bytes());
        let ghost start = self.buffer@;
        let mut index: usize = 0;
        while index < messages.len()
            invariant
                index <= messages@.len(),
                payloads == Seq::new(messages@.len(), |i: int| messages@[i].bytes()),
                self.buffer@ == start + entry_frames(field_number, payloads.take(index as int)),
                self.field_numbers@ == old(self).field_numbers@.insert(field_number),
            decreases messages@.len() - index,
        {
            encode_length_delimited(
                field_number,
                messages[index].buffer.as_slice(),
                &mut self.buffer,
            );
            proof {
                let done = payloads.take(index + 1);
                assert(done.drop_last() =~= payloads.take(index as int));
            }
            index += 1;
        }
        assert(payloads.take(index as int) =~= payloads);
        self
    }

    /// Adds an embedded message: the bytes `message` encodes itself to, as a
    /// length-delimited field.
    pub fn add_message_with_trait<P: Protobuf>(&mut self, field_number: u32, message: P) -> (ret:
        &mut Self)
        requires
            !old(self).fields().contains(field_number),
        ensures
            exists|encoded: Vec<u8>| #[trigger]
                call_ensures(P::encode_to_vec, (&message,), encoded) && added(
                    *old(self),
                    *ret,
                    field_number,
                    length_delimited(field_number, encoded@),
                ),
            *final(self) == *final(ret),
    {
        self.check_field(field_number);
        let encode = P::encode_to_vec;
        let encoded = encode(&message);
        encode_length_delimited(field_number, encoded.as_slice(), &mut self.buffer);
        self
    }

    /// Adds a repeated message field: the bytes each of `messages` encodes
    /// itself to, each as a length-delimited field of its own, in order.
    pub fn add_repeated_message_with_trait<P: Protobuf>(
        &mut self,
        field_number: u32,
        messages: Vec<P>,
    ) -> (ret: &mut Self)
        requires
            !old(self).fields().contains(field_number),
        ensures
            exists|payloads: Seq<Seq<u8>>|
                {
                    &&& #[trigger] added(
                        *old(self),
                        *ret,
                        field_number,
                        entry_frames(field_number, payloads),
                    )
                    &&& payloads.len() == messages@.len()
                    &&& forall|i: int| #[trigger]
                        within(i, messages@.len()) ==> exists|encoded: Vec<u8>|
                            encoded@ == payloads[i] && #[trigger] call_ensures(
                                P::encode_to_vec,
                                (&messages@[i],),
                                encoded,
                            )
                },
            *final(self) == *final(ret),
    {
        self.check_field(field_number);
        let ghost mut payloads: Seq<Seq<u8>> = Seq::empty();
        let ghost start = self.buffer@;
        let mut index: usize = 0;
        while index < messages.len()
            invariant
                index <= messages@.len(),
                payloads.len() == index,
                self.buffer@ == start + entry_frames(field_number, payloads),
                self.field_numbers@ == old(self).field_numbers@.insert(field_number),
                forall|i: int| #[trigger]
                    within(i, index as nat) ==> exists|encoded: Vec<u8>|
                        encoded@ == payloads[i] && #[trigger] call_ensures(
                            P::encode_to_vec,
                            (&messages@[i],),
                            encoded,
                        ),
            decreases messages@.len() - index,
        {
            let ghost earlier = payloads;
            let encode = P::encode_to_vec;
            let encoded = encode(&messages[index]);
            encode_length_delimited(field_number, encoded.as_slice(), &mut self.buffer);
            proof {
                payloads = earlier.push(encoded@);
                assert(payloads.drop_last() =~= earlier);
                assert forall|i: int| #[trigger] within(i, (index + 1) as nat) implies exists|
                    encoded: Vec<u8>,
                |
                    encoded@ == payloads[i] && #[trigger] call_ensures(
                        P::encode_to_vec,
                        (&messages@[i],),
                        encoded,
                    ) by {
                    if i < index {
                        assert(within(i, index as nat));
                    }
                }
            }
            index += 1;
        }
        proof {
            assert(added(*old(self), *self, field_number, entry_frames(field_number, payloads)));
        }
        self
    }

    /// Adds a map field: each entry of `map` as an entry of its own, written
    /// by [`encode_map_entry`], in the order in which the map hands its
    /// entries out.
    pub fn add_map<K, V, IK, IV>(
        &mut self,
        field_number: u32,
        map: HashMap<K, V>,
        key_encoder: IK,
        value_encoder: IV,
    ) -> (ret: &mut Self)
        where IK: Fn(u32, &K, &mut Vec<u8>), IV: Fn(u32, &V, &mut Vec<u8>)
        requires
            !old(self).fields().contains(field_number),
            obeys_key_model::<K>(),
            forall|key: K, w: &mut Vec<u8>|
                map@.contains_key(key) ==> call_requires(key_encoder, (1u32, &key, w)),
            forall|key: K, w: &mut Vec<u8>|
                map@.contains_key(key) ==> call_requires(value_encoder, (2u32, &map@[key], w)),
        ensures
            exists|order: Seq<(K, V)>, steps: Seq<Seq<u8>>|
                {
                    &&& #[trigger] is_trace(steps, old(self).bytes(), ret.bytes(), order.len())
                    &&& lists(order, map@)
                    &&& forall|i: int| #[trigger]
                        within(i, order.len()) ==> exists|w: &mut Vec<u8>|
                            w@ == steps[i] && final(w)@ == steps[i + 1]
                                && #[trigger] call_ensures(
                                encode_map_entry::<K, V, IK, IV>,
                                (
                                    field_number,
                                    &order[i].0,
                                    &order[i].1,
                                    w,
                                    &key_encoder,
                                    &value_encoder,
                                ),
                                (),
                            )
                },
            ret.fields() == old(self).fields().insert(field_number),
            *final(self) == *final(ret),
    {
        self.check_field(field_number);
        let ghost mut steps: Seq<Seq<u8>> = seq![self.buffer@];
        let ghost order = listing(&map);
        for pair in iter: map.iter()
            invariant
                forall|key: K, w: &mut Vec<u8>|
                    map@.contains_key(key) ==> call_requires(key_encoder, (1u32, &key, w)),
                forall|key: K, w: &mut Vec<u8>|
                    map@.contains_key(key) ==> call_requires(value_encoder, (2u32, &map@[key], w)),
                self.field_numbers@ == old(self).field_numbers@.insert(field_number),
                iter.seq().unref() == order,
                lists(order, map@),
                is_trace(steps, old(self).buffer@, self.buffer@, iter.index() as nat),
                forall|i: int| #[trigger]
                    within(i, iter.index() as nat) ==> exists|w: &mut Vec<u8>|
                        w@ == steps[i] && final(w)@ == steps[i + 1] && #[trigger] call_ensures(
                            encode_map_entry::<K, V, IK, IV>,
                            (
                                field_number,
                                &iter.seq().unref()[i].0,
                                &iter.seq().unref()[i].1,
                                w,
                                &key_encoder,
                                &value_encoder,
                            ),
                            (),
                        ),
        {
            let ghost before = steps;
            proof {
                let entry = order[iter.index() as int];
                assert(order.to_set().contains(entry));
                assert(map@.contains_pair(entry.0, entry.1));
            }
            let write_entry = encode_map_entry::<K, V, IK, IV>;
            write_entry(
                field_number,
                pair.0,
                pair.1,
                &mut self.buffer,
                &key_encoder,
                &value_encoder,
            );
            proof {
                steps = before.push(self.buffer@);
                let done = iter.index();
                assert forall|i: int| #[trigger] within(i, (done + 1) as nat) implies exists|
                    w: &mut Vec<u8>,
                |
                    w@ == steps[i] && final(w)@ == steps[i + 1] && #[trigger] call_ensures(
                        encode_map_entry::<K, V, IK, IV>,
                        (
                            field_number,
                            &iter.seq().unref()[i].0,
                            &iter.seq().unref()[i].1,
                            w,
                            &key_encoder,
                            &value_encoder,
                        ),
                        (),
                    ) by {
                    if i < done {
                        assert(within(i, done as nat));
                    }
                }
            }
        }
        proof {
            assert(is_trace(steps, old(self).bytes(), self.bytes(), order.len()));
        }
        self
    }

    /// Adds a map field whose values are messages: each entry of `map` as an
    /// entry of its own, written by [`encode_map_message_entry`] around what
    /// each value has built, in the order in which the map hands its entries
    /// out.
    pub fn add_map_message_value<K, IK>(
        &mut self,
        field_number: u32,
        map: HashMap<K, ProtobufBuilder>,
        key_encoder: IK,
    ) -> (ret: &mut Self)
        where IK: Fn(u32, &K, &mut Vec<u8>)
        requires
            !old(self).fields().contains(field_number),
            obeys_key_model::<K>(),
            forall|key: K, w: &mut Vec<u8>|
                map@.contains_key(key) ==> call_requires(key_encoder, (1u32, &key, w)),
        ensures
            exists|order: Seq<(K, ProtobufBuilder)>, steps: Seq<Seq<u8>>|
                {
                    &&& #[trigger] is_trace(steps, old(self).bytes(), ret.bytes(), order.len())
                    &&& lists(order, map@)
                    &&& forall|i: int| #[trigger]
                        within(i, order.len()) ==> exists|w: &mut Vec<u8>, value: &[u8]|
                            #![trigger
                                call_ensures(
                                    encode_map_message_entry::<K, IK>,
                                    (field_number, &order[i].0, value, w, &key_encoder),
                                    (),
                                )
                            ]
                            {
                                &&& w@ == steps[i]
                                &&& final(w)@ == steps[i + 1]
                                &&& value@ == order[i].1.bytes()
                                &&& call_ensures(
                                    encode_map_message_entry::<K, IK>,
                                    (field_number, &order[i].0, value, w, &key_encoder),
                                    (),
                                )
                            }
                },
            ret.fields() == old(self).fields().insert(field_number),
            *final(self) == *final(ret),
    {
        self.check_field(field_number);
        let ghost mut steps: Seq<Seq<u8>> = seq![self.buffer@];
        let ghost order = listing(&map);
        for pair in iter: map.iter()
            invariant
                forall|key: K, w: &mut Vec<u8>|
                    map@.contains_key(key) ==> call_requires(key_encoder, (1u32, &key, w)),
                self.field_numbers@ == old(self).field_numbers@.insert(field_number),
                iter.seq().unref() == order,
                lists(order, map@),
                is_trace(steps, old(self).buffer@, self.buffer@, iter.index() as nat),
                forall|i: int| #[trigger]
                    within(i, iter.index() as nat) ==> exists|w: &mut Vec<u8>, value: &[u8]|
                        #![trigger
                            call_ensures(
                                encode_map_message_entry::<K, IK>,
                                (field_number, &order[i].0, value, w, &key_encoder),
                                (),
                            )
                        ]
                        {
                            &&& w@ == steps[i]
                            &&& final(w)@ == steps[i + 1]
                            &&& value@ == order[i].1.bytes()
                            &&& call_ensures(
                                encode_map_message_entry::<K, IK>,
                                (field_number, &order[i].0, value, w, &key_encoder),
                                (),
                            )
                        },
        {
            let ghost before = steps;
            proof {
                let entry = order[iter.index() as int];
                assert(order.to_set().contains(entry));
                assert(map@.contains_pair(entry.0, entry.1));
            }
            let write_entry = encode_map_message_entry::<K, IK>;
            write_entry(
                field_number,
                pair.0,
                pair.1.buffer.as_slice(),
                &mut self.buffer,
                &key_encoder,
            );
            proof {
                steps = before.push(self.buffer@);
                let done = iter.index();
                assert forall|i: int| #[trigger] within(i, (done + 1) as nat) implies exists|
                    w: &mut Vec<u8>,
                    value: &[u8],
                |
                    #![trigger
                        call_ensures(
                            encode_map_message_entry::<K, IK>,
                            (field_number, &order[i].0, value, w, &key_encoder),
                            (),
                        )
                    ]
                    {
                        &&& w@ == steps[i]
                        &&& final(w)@ == steps[i + 1]
                        &&& value@ == order[i].1.bytes()
                        &&& call_ensures(
                            encode_map_message_entry::<K, IK>,
                            (field_number, &order[i].0, value, w, &key_encoder),
                            (),
                        )
                    } by {
                    if i < done {
                        assert(within(i, done as nat));
                    }
                }
            }
        }
        proof {
            assert(is_trace(steps, old(self).bytes(), self.bytes(), order.len()));
        }
        self
    }

    /// Adds a map field whose values are messages: each entry of `map` as an
    /// entry of its own, written by [`encode_map_message_entry`] around the
    /// bytes each value encodes itself to, in the order in which the map hands
    /// its entries out.
    pub fn add_map_message_value_with_trait<K, P, IK>(
        &mut self,
        field_number: u32,
        map: HashMap<K, P>,
        key_encoder: IK,
    ) -> (ret: &mut Self)
        where IK: Fn(u32, &K, &mut Vec<u8>), P: Protobuf
        requires
            !old(self).fields().contains(field_number),
            obeys_key_model::<K>(),
            forall|key: K, w: &mut Vec<u8>|
                map@.contains_key(key) ==> call_requires(key_encoder, (1u32, &key, w)),
        ensures
            exists|order: Seq<(K, P)>, steps: Seq<Seq<u8>>|
                {
                    &&& #[trigger] is_trace(steps, old(self).bytes(), ret.bytes(), order.len())
                    &&& lists(order, map@)
                    &&& forall|i: int| #[trigger]
                        within(i, order.len()) ==> exists|w: &mut Vec<u8>, value: &[u8]|
                            #![trigger
                                call_ensures(
                                    encode_map_message_entry::<K, IK>,
                                    (field_number, &order[i].0, value, w, &key_encoder),
                                    (),
                                )
                            ]
                            {
                                &&& w@ == steps[i]
                                &&& final(w)@ == steps[i + 1]
                                &&& exists|encoded: Vec<u8>|
                                    encoded@ == value@ && #[trigger] call_ensures(
                                        P::encode_to_vec,
                                        (&order[i].1,),
                                        encoded,
                                    )
                                &&& call_ensures(
                                    encode_map_message_entry::<K, IK>,
                                    (field_number, &order[i].0, value, w, &key_encoder),
                                    (),
                                )
                            }
                },
            ret.fields() == old(self).fields().insert(field_number),
            *final(self) == *final(ret),
    {
        self.check_field(field_number);
        let ghost mut steps: Seq<Seq<u8>> = seq![self.buffer@];
        let ghost order = listing(&map);
        for pair in iter: map.iter()
            invariant
                forall|key: K, w: &mut Vec<u8>|
                    map@.contains_key(key) ==> call_requires(key_encoder, (1u32, &key, w)),
                self.field_numbers@ == old(self).field_numbers@.insert(field_number),
                iter.seq().unref() == order,
                lists(order, map@),
                is_trace(steps, old(self).buffer@, self.buffer@, iter.index() as nat),
                forall|i: int| #[trigger]
                    within(i, iter.index() as nat) ==> exists|w: &mut Vec<u8>, value: &[u8]|
                        #![trigger
                            call_ensures(
                                encode_map_message_entry::<K, IK>,
                                (field_number, &order[i].0, value, w, &key_encoder),
                                (),
                            )
                        ]
                        {
                            &&& w@ == steps[i]
                            &&& final(w)@ == steps[i + 1]
                            &&& exists|encoded: Vec<u8>|
                                    encoded@ == value@ && #[trigger] call_ensures(
                                        P::encode_to_vec,
                                        (&order[i].1,),
                                        encoded,
                                    )
                            &&& call_ensures(
                                encode_map_message_entry::<K, IK>,
                                (field_number, &order[i].0, value, w, &key_encoder),
                                (),
                            )
                        },
        {
            let ghost before = steps;
            proof {
                let entry = order[iter.index() as int];
                assert(order.to_set().contains(entry));
                assert(map@.contains_pair(entry.0, entry.1));
            }
            let encode = P::encode_to_vec;
            let encoded = encode(pair.1);
            let write_entry = encode_map_message_entry::<K, IK>;
            write_entry(
                field_number,
                pair.0,
                encoded.as_slice(),
                &mut self.buffer,
                &key_encoder,
            );
            proof {
                steps = before.push(self.buffer@);
                let done = iter.index();
                assert forall|i: int| #[trigger] within(i, (done + 1) as nat) implies exists|
                    w: &mut Vec<u8>,
                    value: &[u8],
                |
                    #![trigger
                        call_ensures(
                            encode_map_message_entry::<K, IK>,
                            (field_number, &order[i].0, value, w, &key_encoder),
                            (),
                        )
                    ]
                    {
                        &&& w@ == steps[i]
                        &&& final(w)@ == steps[i + 1]
                        &&& exists|encoded: Vec<u8>|
                                    encoded@ == value@ && #[trigger] call_ensures(
                                        P::encode_to_vec,
                                        (&order[i].1,),
                                        encoded,
                                    )
                        &&& call_ensures(
                            encode_map_message_entry::<K, IK>,
                            (field_number, &order[i].0, value, w, &key_encoder),
                            (),
                        )
                    } by {
                    if i < done {
                        assert(within(i, done as nat));
                    }
                }
            }
        }
        proof {
            assert(is_trace(steps, old(self).bytes(), self.bytes(), order.len()));
        }
        self
    }

    /// Finishes the message: returns the bytes written and leaves the builder
    /// empty, with no field number taken.
    pub fn build(&mut self) -> (built: Vec<u8>)
        ensures
            built@ == old(self).bytes(),
            final(self).bytes() == Seq::<u8>::empty(),
            final(self).fields() == Set::<u32>::empty(),
    {
        let mut result: Vec<u8> = Vec::new();
        std::mem::swap(&mut self.buffer, &mut result);
        self.field_numbers = HashSet::new();
        result
    }
}

} // verus!
