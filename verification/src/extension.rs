use crate::bencode::{
    ascii, decimal, decode_int_dict, encode_int_dict, entries_encoding, entry_encoding,
    int_dict_decoding, int_dict_encoding, is_ascii_name, key_before, keys_ascending, named_fields,
    read_fields,
};
use crate::record::lemma_int_dict_is_dictionary;
use crate::scan::{
    dictionary_end, find_dictionary_end, is_dictionary, lemma_dictionary_end_bounds,
    lemma_dictionary_end_of_prefix,
};
use vstd::prelude::*;
use vstd::slice::{slice_subrange, slice_to_vec};

verus! {

/// Why an extension payload could not be read or written.
#[derive(Debug, Clone, Copy, PartialEq, Eq, Structural)]
pub enum MyExtMetaDataError {
    /// The payload has no bytes at all.
    EmptyInput,
    /// What follows the extension id does not start with a dictionary whose
    /// values are all integers, or that dictionary lacks `msg_type` or `piece`,
    /// or holds a negative number or a `total_size` of zero. A dictionary
    /// with a value of another kind is refused unread: reading past such a
    /// value would mean descending as deep as a peer cares to nest it.
    MalformedControl,
    /// `total_size` is larger than what follows the control record.
    SizeOutOfRange,
    /// The trailing `total_size` bytes are not exactly one dictionary.
    MalformedMetadata,
    /// `assemble` was handed a control record that the dictionary codec had
    /// failed to write. `to_bytes` never gives this.
    EncodeFailed,
}

/// The metadata dictionary in its serialized form. Its schema is the business
/// of whoever consumes it; here it is only known to be one whole dictionary.
#[derive(Debug, Clone, PartialEq, Eq)]
pub struct MyTorrentInfo {
    pub raw: Vec<u8>,
}

impl MyTorrentInfo {
    /// The bytes are exactly one dictionary, with nothing after it.
    pub open spec fn well_formed(&self) -> bool {
        is_dictionary(self.raw@)
    }
}

/// The control record of a metadata-exchange message.
#[derive(Debug, Clone, Copy, PartialEq, Eq)]
pub struct MyExtMetaDataPayloadDic {
    pub msg_type: usize,
    pub piece: usize,
    pub total_size: Option<usize>,
}

/// The payload of an extended message of the metadata exchange.
#[derive(Debug, Clone, PartialEq, Eq)]
pub struct MyExtMetaDataPayload {
    pub ext_msg_id: u8,
    pub dic: MyExtMetaDataPayloadDic,
    pub info: Option<MyTorrentInfo>,
}

/// A control record as a mathematical value.
pub ghost struct DicView {
    pub msg_type: int,
    pub piece: int,
    pub total_size: Option<int>,
}

/// A payload as a mathematical value.
pub ghost struct PayloadView {
    pub ext_msg_id: u8,
    pub dic: DicView,
    pub info: Option<Seq<u8>>,
}

impl View for MyExtMetaDataPayloadDic {
    type V = DicView;

    open spec fn view(&self) -> DicView {
        DicView {
            msg_type: self.msg_type as int,
            piece: self.piece as int,
            total_size: match self.total_size {
                Some(t) => Some(t as int),
                None => None,
            },
        }
    }
}

impl View for MyExtMetaDataPayload {
    type V = PayloadView;

    open spec fn view(&self) -> PayloadView {
        PayloadView {
            ext_msg_id: self.ext_msg_id,
            dic: self.dic@,
            info: match self.info {
                Some(i) => Some(i.raw@),
                None => None,
            },
        }
    }
}

/// The value stored under `key`, if any entry has that key.
pub open spec fn lookup(fields: Seq<(Seq<char>, i64)>, key: Seq<char>) -> Option<i64>
    decreases fields.len(),
{
    if fields.len() == 0 {
        None
    } else if fields[0].0 == key {
        Some(fields[0].1)
    } else {
        lookup(fields.drop_first(), key)
    }
}

/// The control record that a dictionary's entries amount to: `msg_type` and
/// `piece` must be there and not negative, `total_size` may be there and is
/// then positive, and each must fit the machine's word. Other entries are
/// ignored.
pub open spec fn control_of(fields: Seq<(Seq<char>, i64)>) -> Option<DicView> {
    match (lookup(fields, "msg_type"@), lookup(fields, "piece"@), lookup(fields, "total_size"@)) {
        (Some(m), Some(p), None) => if 0 <= m <= usize::MAX && 0 <= p <= usize::MAX {
            Some(DicView { msg_type: m as int, piece: p as int, total_size: None })
        } else {
            None
        },
        (Some(m), Some(p), Some(t)) => if 0 <= m <= usize::MAX && 0 <= p <= usize::MAX && 0 < t
            <= usize::MAX {
            Some(DicView { msg_type: m as int, piece: p as int, total_size: Some(t as int) })
        } else {
            None
        },
        _ => None,
    }
}

/// The entries that a control record is written with.
pub open spec fn control_fields(dic: DicView) -> Seq<(Seq<char>, u64)> {
    let base = seq![("msg_type"@, dic.msg_type as u64), ("piece"@, dic.piece as u64)];
    match dic.total_size {
        Some(t) => base.push(("total_size"@, t as u64)),
        None => base,
    }
}

/// The bencoding of a control record: a dictionary with `msg_type`, `piece`
/// and, where one is declared, `total_size`, in that order.
pub open spec fn control_bytes(dic: DicView) -> Seq<u8> {
    int_dict_encoding(control_fields(dic))
}

/// The entries of a control record are ASCII names in ascending order.
pub proof fn lemma_control_fields_ascending(dic: DicView)
    ensures
        keys_ascending(control_fields(dic)),
{
    reveal_strlit("msg_type");
    reveal_strlit("piece");
    reveal_strlit("total_size");
    let fields = control_fields(dic);
    assert(key_before("msg_type"@, "piece"@));
    assert(key_before("piece"@, "total_size"@));
    assert(is_ascii_name("msg_type"@));
    assert(is_ascii_name("piece"@));
    assert(is_ascii_name("total_size"@));
    assert forall|i: int| 0 <= i < fields.len() implies is_ascii_name(#[trigger] fields[i].0) by {
        assert(i == 0 || i == 1 || i == 2);
    }
    assert forall|i: int| 0 <= i && i + 1 < fields.len() implies key_before(
        #[trigger] fields[i].0,
        fields[i + 1].0,
    ) by {
        assert(i == 0 || i == 1);
    }
}

/// The bytes of a payload, given the bytes of its control record: the
/// extension id, the control record, then the metadata if there is any.
pub open spec fn payload_bytes(p: PayloadView, control: Seq<u8>) -> Seq<u8> {
    match p.info {
        Some(raw) => seq![p.ext_msg_id] + control + raw,
        None => seq![p.ext_msg_id] + control,
    }
}

/// The number of bytes that follow the control record, where the bytes after
/// the extension id start with a dictionary.
pub open spec fn after_control(b: Seq<u8>) -> Option<int> {
    match dictionary_end(b.skip(1)) {
        Some(end) => Some(b.len() - 1 - end),
        None => None,
    }
}

/// Reading a payload, given the entries that the dictionary codec found in the
/// control record. The control record is the dictionary that follows the
/// extension id. The metadata, where a `total_size` is declared, is the last
/// `total_size` bytes of the input, which must lie after the control record
/// and be one whole dictionary.
pub open spec fn payload_of(b: Seq<u8>, fields: Option<Seq<(Seq<char>, i64)>>) -> Result<
    PayloadView,
    MyExtMetaDataError,
> {
    if b.len() == 0 {
        Err(MyExtMetaDataError::EmptyInput)
    } else if fields is None || control_of(fields->0) is None || after_control(b) is None {
        Err(MyExtMetaDataError::MalformedControl)
    } else {
        let dic = control_of(fields->0)->0;
        match dic.total_size {
            None => Ok(PayloadView { ext_msg_id: b[0], dic, info: None }),
            Some(t) => {
                let tail = b.subrange(b.len() - t, b.len() as int);
                if t > after_control(b)->0 {
                    Err(MyExtMetaDataError::SizeOutOfRange)
                } else if !is_dictionary(tail) {
                    Err(MyExtMetaDataError::MalformedMetadata)
                } else {
                    Ok(PayloadView { ext_msg_id: b[0], dic, info: Some(tail) })
                }
            },
        }
    }
}

impl PayloadView {
    /// Metadata is there exactly when a `total_size` is declared, and is then
    /// of that size.
    pub open spec fn consistent(self) -> bool {
        match (self.dic.total_size, self.info) {
            (None, None) => true,
            (Some(t), Some(raw)) => raw.len() == t,
            _ => false,
        }
    }
}

/// Reading a payload from its bytes.
pub open spec fn parsed(b: Seq<u8>) -> Result<PayloadView, MyExtMetaDataError> {
    let body = b.skip(1);
    payload_of(b, int_dict_decoding(body))
}

/// Whatever is read from bytes is consistent, carries the first byte as its
/// extension id, and holds as metadata the very bytes that end the input.
pub proof fn law_parsed_consistent(b: Seq<u8>)
    ensures
        parsed(b) matches Ok(p) ==> p.consistent() && p.ext_msg_id == b[0] && (p.info matches Some(
            raw,
        ) ==> raw == b.subrange(b.len() - raw.len(), b.len() as int) && is_dictionary(raw)),
{
    lemma_dictionary_end_bounds(b.skip(1));
}

/// Reassembly from the tail: where `control` is one whole dictionary in which
/// the codec finds the control record `dic`, whatever follows it, `dic`
/// declares the size of `blob`, and `blob` is one whole dictionary, the bytes
/// `id, control, blob` read as `dic` with `blob` as metadata.
pub proof fn law_reassembly_from_tail(id: u8, control: Seq<u8>, blob: Seq<u8>, dic: DicView)
    requires
        is_dictionary(control),
        int_dict_decoding(control + blob) matches Some(fields) && control_of(fields) == Some(dic),
        dic.total_size == Some(blob.len() as int),
        is_dictionary(blob),
    ensures
        parsed(seq![id] + control + blob) == Ok::<PayloadView, MyExtMetaDataError>(
            PayloadView { ext_msg_id: id, dic, info: Some(blob) },
        ),
{
    let b = seq![id] + control + blob;
    assert(b.skip(1) =~= control + blob);
    assert(b.subrange(b.len() - blob.len(), b.len() as int) =~= blob);
    assert((control + blob).take(control.len() as int) =~= control);
    lemma_dictionary_end_of_prefix(control + blob, control.len() as int);
}

/// A declared `total_size` above the number of bytes that follow the control
/// record is a size error, whatever those bytes hold.
pub proof fn law_oversized_total_size(id: u8, control: Seq<u8>, trailing: Seq<u8>, t: int)
    requires
        is_dictionary(control),
        int_dict_decoding(control + trailing) matches Some(fields) && control_of(
            fields,
        ) matches Some(dic) && dic.total_size == Some(t),
        t > trailing.len(),
    ensures
        parsed(seq![id] + control + trailing) == Err::<PayloadView, MyExtMetaDataError>(
            MyExtMetaDataError::SizeOutOfRange,
        ),
{
    let b = seq![id] + control + trailing;
    assert(b.skip(1) =~= control + trailing);
    assert((control + trailing).take(control.len() as int) =~= control);
    lemma_dictionary_end_of_prefix(control + trailing, control.len() as int);
}

/// One field of a written control record: its label, which is the name as a
/// byte string, and its number in decimal between `i` and `e`.
pub open spec fn field_bytes(label: Seq<u8>, value: int) -> Seq<u8> {
    label + seq![105u8] + decimal(value as u64 as nat) + seq![101u8]
}

/// The bytes of a written control record, spelled out: `d`, `8:msg_type` and
/// its number, `5:piece` and its number, `10:total_size` and its number where
/// one is declared, `e`.
pub proof fn lemma_control_bytes_spelled_out(dic: DicView)
    ensures
        control_bytes(dic) == seq![100u8] + field_bytes(
            seq![56u8, 58, 109, 115, 103, 95, 116, 121, 112, 101],
            dic.msg_type,
        ) + field_bytes(seq![53u8, 58, 112, 105, 101, 99, 101], dic.piece) + (match dic.total_size {
            Some(t) => field_bytes(
                seq![49u8, 48, 58, 116, 111, 116, 97, 108, 95, 115, 105, 122, 101],
                t,
            ),
            None => Seq::<u8>::empty(),
        }) + seq![101u8],
{
    reveal_strlit("msg_type");
    reveal_strlit("piece");
    reveal_strlit("total_size");
    reveal_with_fuel(decimal, 3);
    reveal_with_fuel(entries_encoding, 5);
    let fields = control_fields(dic);
    assert(ascii("msg_type"@) =~= seq![109u8, 115, 103, 95, 116, 121, 112, 101]);
    assert(ascii("piece"@) =~= seq![112u8, 105, 101, 99, 101]);
    assert(ascii("total_size"@) =~= seq![116u8, 111, 116, 97, 108, 95, 115, 105, 122, 101]);
    assert(decimal(8) =~= seq![56u8]);
    assert(decimal(5) =~= seq![53u8]);
    assert(decimal(10) =~= seq![49u8, 48]);
    let first = entry_encoding(fields[0].0, fields[0].1);
    let second = entry_encoding(fields[1].0, fields[1].1);
    assert(first =~= field_bytes(
        seq![56u8, 58, 109, 115, 103, 95, 116, 121, 112, 101],
        dic.msg_type,
    ));
    assert(second =~= field_bytes(seq![53u8, 58, 112, 105, 101, 99, 101], dic.piece));
    assert(fields.drop_first()[0] == fields[1]);
    match dic.total_size {
        Some(t) => {
            let third = entry_encoding(fields[2].0, fields[2].1);
            assert(third =~= field_bytes(
                seq![49u8, 48, 58, 116, 111, 116, 97, 108, 95, 115, 105, 122, 101],
                t,
            ));
            assert(fields.drop_first().drop_first()[0] == fields[2]);
            assert(fields.drop_first().drop_first().drop_first().len() == 0);
            assert(entries_encoding(fields) =~= first + second + third);
        },
        None => {
            assert(fields.drop_first().drop_first().len() == 0);
            assert(entries_encoding(fields) =~= first + second);
        },
    }
    assert(control_bytes(dic) =~= seq![100u8] + entries_encoding(fields) + seq![101u8]);
}

/// A control record as it is written is one whole dictionary.
pub proof fn law_control_bytes_is_dictionary(dic: DicView)
    ensures
        is_dictionary(control_bytes(dic)),
{
    lemma_int_dict_is_dictionary(control_fields(dic));
}

/// What is written reads back: where the codec finds the control record `dic`
/// again in the bytes written for it, `dic` declares the size of `blob`, and
/// `blob` is one whole dictionary, the bytes written for `id`, `dic` and
/// `blob` read as exactly these.
pub proof fn law_written_payload_reads_back(id: u8, dic: DicView, blob: Seq<u8>)
    requires
        int_dict_decoding(control_bytes(dic) + blob) matches Some(fields) && control_of(fields)
            == Some(dic),
        dic.total_size == Some(blob.len() as int),
        is_dictionary(blob),
    ensures
        parsed(
            payload_bytes(PayloadView { ext_msg_id: id, dic, info: Some(blob) }, control_bytes(dic)),
        ) == Ok::<PayloadView, MyExtMetaDataError>(
            PayloadView { ext_msg_id: id, dic, info: Some(blob) },
        ),
{
    law_control_bytes_is_dictionary(dic);
    law_reassembly_from_tail(id, control_bytes(dic), blob, dic);
}

impl MyExtMetaDataPayloadDic {
    /// The control record among the entries of a decoded dictionary, or
    /// `MalformedControl` where they hold none.
    pub fn from_fields(fields: &Vec<(String, i64)>) -> (r: Result<Self, MyExtMetaDataError>)
        ensures
            match r {
                Ok(dic) => control_of(read_fields(fields@)) == Some(dic@),
                Err(e) => e == MyExtMetaDataError::MalformedControl && control_of(
                    read_fields(fields@),
                ) is None,
            },
    {
        let msg_type = find(fields, "msg_type");
        let piece = find(fields, "piece");
        let total_size = find(fields, "total_size");
        match (msg_type, piece) {
            (Some(m), Some(p)) => {
                if m < 0 || p < 0 || m as u64 > usize::MAX as u64 || p as u64 > usize::MAX as u64 {
                    return Err(MyExtMetaDataError::MalformedControl);
                }
                match total_size {
                    None => Ok(
                        MyExtMetaDataPayloadDic {
                            msg_type: m as usize,
                            piece: p as usize,
                            total_size: None,
                        },
                    ),
                    Some(t) => {
                        if t <= 0 || t as u64 > usize::MAX as u64 {
                            return Err(MyExtMetaDataError::MalformedControl);
                        }
                        Ok(
                            MyExtMetaDataPayloadDic {
                                msg_type: m as usize,
                                piece: p as usize,
                                total_size: Some(t as usize),
                            },
                        )
                    },
                }
            },
            _ => Err(MyExtMetaDataError::MalformedControl),
        }
    }
}

/// The number stored under `key`.
fn find(fields: &Vec<(String, i64)>, key: &str) -> (r: Option<i64>)
    ensures
        r == lookup(read_fields(fields@), key@),
{
    let wanted: String = key.to_owned();
    let ghost all = read_fields(fields@);
    let mut i: usize = 0;
    proof {
        assert(all.skip(0) =~= all);
    }
    while i < fields.len()
        invariant
            i <= fields.len(),
            all == read_fields(fields@),
            wanted@ == key@,
            lookup(all, key@) == lookup(all.skip(i as int), key@),
        decreases fields.len() - i,
    {
        proof {
            assert(all.skip(i as int)[0] == all[i as int]);
            assert(all.skip(i as int).drop_first() =~= all.skip(i + 1));
        }
        if fields[i].0 == wanted {
            return Some(fields[i].1);
        }
        i += 1;
    }
    None
}

impl MyExtMetaDataPayload {
    /// A message without metadata: a request, a reject, or a data message that
    /// is not the last.
    pub fn new(ext_msg_id: u8, msg_type: usize, piece: usize) -> (m: Self)
        ensures
            m@ == (PayloadView {
                ext_msg_id,
                dic: DicView { msg_type: msg_type as int, piece: piece as int, total_size: None },
                info: None,
            }),
            m@.consistent(),
    {
        MyExtMetaDataPayload {
            ext_msg_id,
            dic: MyExtMetaDataPayloadDic { msg_type, piece, total_size: None },
            info: None,
        }
    }

    /// Puts a payload together from its control record as the codec wrote it:
    /// `EncodeFailed` where the codec failed, else the extension id, the
    /// control record and the metadata, if any, with nothing between them.
    pub fn assemble(&self, control: Result<Vec<u8>, serde_bencode::Error>) -> (r: Result<
        Vec<u8>,
        MyExtMetaDataError,
    >)
        ensures
            match control {
                Ok(c) => r matches Ok(v) && v@ == payload_bytes(self@, c@),
                Err(_) => r == Err::<Vec<u8>, MyExtMetaDataError>(
                    MyExtMetaDataError::EncodeFailed,
                ),
            },
    {
        match control {
            Err(_) => Err(MyExtMetaDataError::EncodeFailed),
            Ok(c) => {
                let mut v: Vec<u8> = Vec::new();
                v.push(self.ext_msg_id);
                v.extend_from_slice(c.as_slice());
                if let Some(info) = &self.info {
                    v.extend_from_slice(info.raw.as_slice());
                }
                proof {
                    assert(v@ =~= payload_bytes(self@, c@));
                }
                Ok(v)
            },
        }
    }

    /// The bytes of this payload: the extension id, the bencoded control
    /// record and the metadata, if any, with nothing between them. It always
    /// succeeds.
    pub fn to_bytes(&self) -> (r: Result<Vec<u8>, MyExtMetaDataError>)
        ensures
            r is Ok,
            r matches Ok(v) ==> v@ == payload_bytes(self@, control_bytes(self@.dic)),
            r matches Ok(v) ==> v@.len() >= 3 && v@[0] == self.ext_msg_id && is_dictionary(
                v@.subrange(1, 1 + control_bytes(self@.dic).len() as int),
            ),
            r matches Ok(v) ==> (match self.info {
                Some(i) => v@.len() == 1 + control_bytes(self@.dic).len() + i.raw@.len()
                    && v@.subrange(v@.len() - i.raw@.len(), v@.len() as int) == i.raw@,
                None => v@.len() == 1 + control_bytes(self@.dic).len(),
            }),
    {
        let mut fields: Vec<(&'static str, u64)> = Vec::new();
        fields.push(("msg_type", self.dic.msg_type as u64));
        fields.push(("piece", self.dic.piece as u64));
        if let Some(t) = self.dic.total_size {
            fields.push(("total_size", t as u64));
        }
        proof {
            assert(named_fields(fields@) =~= control_fields(self@.dic));
            lemma_control_fields_ascending(self@.dic);
        }
        let control = encode_int_dict(&fields);
        let r = self.assemble(control);
        proof {
            let c = control_bytes(self@.dic);
            law_control_bytes_is_dictionary(self@.dic);
            lemma_dictionary_end_bounds(c);
            let v = r->Ok_0@;
            assert(v.subrange(1, 1 + c.len() as int) =~= c);
            match self@.info {
                Some(raw) => {
                    assert(v.subrange(v.len() - raw.len(), v.len() as int) =~= raw);
                },
                None => {},
            }
        }
        r
    }

    /// Reads a payload, given the codec's reading of the control record that
    /// follows the extension id.
    pub fn from_parts(b: &[u8], fields: Result<Vec<(String, i64)>, serde_bencode::Error>) -> (r:
        Result<Self, MyExtMetaDataError>)
        ensures
            match r {
                Ok(p) => Ok::<PayloadView, MyExtMetaDataError>(p@),
                Err(e) => Err::<PayloadView, MyExtMetaDataError>(e),
            } == payload_of(
                b@,
                match fields {
                    Ok(f) => Some(read_fields(f@)),
                    Err(_) => None,
                },
            ),
    {
        if b.len() == 0 {
            return Err(MyExtMetaDataError::EmptyInput);
        }
        let ext_msg_id: u8 = b[0];
        let fields = match fields {
            Ok(f) => f,
            Err(_) => {
                return Err(MyExtMetaDataError::MalformedControl);
            },
        };
        let dic = match MyExtMetaDataPayloadDic::from_fields(&fields) {
            Ok(dic) => dic,
            Err(e) => {
                return Err(e);
            },
        };
        let body = slice_subrange(b, 1, b.len());
        proof {
            assert(body@ =~= b@.skip(1));
        }
        let rest: usize = match find_dictionary_end(body) {
            Some(end) => body.len() - end,
            None => {
                return Err(MyExtMetaDataError::MalformedControl);
            },
        };
        match dic.total_size {
            None => Ok(MyExtMetaDataPayload { ext_msg_id, dic, info: None }),
            Some(total_size) => {
                if total_size > rest {
                    return Err(MyExtMetaDataError::SizeOutOfRange);
                }
                let tail = slice_subrange(b, b.len() - total_size, b.len());
                match find_dictionary_end(tail) {
                    Some(end) if end == total_size => Ok(
                        MyExtMetaDataPayload {
                            ext_msg_id,
                            dic,
                            info: Some(MyTorrentInfo { raw: slice_to_vec(tail) }),
                        },
                    ),
                    _ => Err(MyExtMetaDataError::MalformedMetadata),
                }
            },
        }
    }

    /// Reads a payload from the bytes of an extended message.
    pub fn from_bytes(b: &[u8]) -> (r: Result<Self, MyExtMetaDataError>)
        ensures
            match r {
                Ok(p) => Ok::<PayloadView, MyExtMetaDataError>(p@),
                Err(e) => Err::<PayloadView, MyExtMetaDataError>(e),
            } == parsed(b@),
            r matches Ok(p) ==> p@.consistent() && (p.info matches Some(i) ==> i.well_formed()),
    {
        proof {
            law_parsed_consistent(b@);
        }
        if b.len() == 0 {
            return Err(MyExtMetaDataError::EmptyInput);
        }
        let body = slice_subrange(b, 1, b.len());
        proof {
            assert(body@ =~= b@.skip(1));
        }
        Self::from_parts(b, decode_int_dict(body))
    }
}

} // verus!
