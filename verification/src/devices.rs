//! Audio devices as the application presents them, and the errors of the
//! playback engine and the recorder.

use vstd::prelude::*;

verus! {

/// The output device in use.
#[derive(Debug, Clone, PartialEq, Eq)]
pub struct DeviceStatus {
    pub output_name: String,
    pub sample_rate: u32,
    pub channels: u16,
}

#[derive(Debug, Clone, PartialEq, Eq)]
pub enum AudioEngineError {
    NoOutputDevice,
    OutputConfig(String),
    UnsupportedSampleFormat(String),
    BuildStream(String),
    StartStream(String),
    CompileSession(String),
    Disconnected,
}

/// `text` followed by `detail`.
fn joined(text: &str, detail: &String) -> (message: String)
    ensures
        message@ == text@ + detail@,
{
    let mut message = String::from_str(text);
    message.append(detail.as_str());
    message
}

pub open spec fn engine_error_text(error: AudioEngineError) -> Seq<char> {
    match error {
        AudioEngineError::NoOutputDevice => "기본 오디오 출력 장치를 찾을 수 없습니다"@,
        AudioEngineError::OutputConfig(d) => "출력 장치 설정을 읽지 못했습니다: "@ + d@,
        AudioEngineError::UnsupportedSampleFormat(d) => "지원하지 않는 출력 샘플 형식입니다: "@ + d@,
        AudioEngineError::BuildStream(d) => "오디오 출력 스트림을 만들지 못했습니다: "@ + d@,
        AudioEngineError::StartStream(d) => "오디오 출력을 시작하지 못했습니다: "@ + d@,
        AudioEngineError::CompileSession(d) => "오디오 세션을 준비하지 못했습니다: "@ + d@,
        AudioEngineError::Disconnected => "오디오 엔진 연결이 끊겼습니다"@,
    }
}

impl AudioEngineError {
    /// The message shown to the user.
    pub fn message(&self) -> (text: String)
        ensures
            text@ == engine_error_text(*self),
    {
        match self {
            AudioEngineError::NoOutputDevice => String::from_str("기본 오디오 출력 장치를 찾을 수 없습니다"),
            AudioEngineError::OutputConfig(d) => joined("출력 장치 설정을 읽지 못했습니다: ", d),
            AudioEngineError::UnsupportedSampleFormat(d) => joined("지원하지 않는 출력 샘플 형식입니다: ", d),
            AudioEngineError::BuildStream(d) => joined("오디오 출력 스트림을 만들지 못했습니다: ", d),
            AudioEngineError::StartStream(d) => joined("오디오 출력을 시작하지 못했습니다: ", d),
            AudioEngineError::CompileSession(d) => joined("오디오 세션을 준비하지 못했습니다: ", d),
            AudioEngineError::Disconnected => String::from_str("오디오 엔진 연결이 끊겼습니다"),
        }
    }
}

#[derive(Debug, Clone, PartialEq, Eq)]
pub enum RecorderError {
    Enumerate(String),
    NoInputDevice,
    InputConfig(String),
    UnsupportedSampleFormat(String),
    BuildStream(String),
    StartStream(String),
}

pub open spec fn recorder_error_text(error: RecorderError) -> Seq<char> {
    match error {
        RecorderError::Enumerate(d) => "오디오 입력 장치 목록을 읽지 못했습니다: "@ + d@,
        RecorderError::NoInputDevice => "선택한 오디오 입력 장치를 찾을 수 없습니다"@,
        RecorderError::InputConfig(d) => "입력 장치 설정을 읽지 못했습니다: "@ + d@,
        RecorderError::UnsupportedSampleFormat(d) => "지원하지 않는 입력 샘플 형식입니다: "@ + d@,
        RecorderError::BuildStream(d) => "녹음 스트림을 만들지 못했습니다: "@ + d@,
        RecorderError::StartStream(d) => "녹음을 시작하지 못했습니다: "@ + d@,
    }
}

impl RecorderError {
    /// The message shown to the user.
    pub fn message(&self) -> (text: String)
        ensures
            text@ == recorder_error_text(*self),
    {
        match self {
            RecorderError::Enumerate(d) => joined("오디오 입력 장치 목록을 읽지 못했습니다: ", d),
            RecorderError::NoInputDevice => String::from_str("선택한 오디오 입력 장치를 찾을 수 없습니다"),
            RecorderError::InputConfig(d) => joined("입력 장치 설정을 읽지 못했습니다: ", d),
            RecorderError::UnsupportedSampleFormat(d) => joined("지원하지 않는 입력 샘플 형식입니다: ", d),
            RecorderError::BuildStream(d) => joined("녹음 스트림을 만들지 못했습니다: ", d),
            RecorderError::StartStream(d) => joined("녹음을 시작하지 못했습니다: ", d),
        }
    }
}

/// Whether input monitoring may run: only when asked for and when input and
/// output run at the same rate, since the monitor path does not resample.
pub fn monitoring_enabled(requested: bool, input_rate: u32, output_rate: u32) -> (enabled: bool)
    ensures
        enabled == (requested && input_rate == output_rate),
{
    requested && input_rate == output_rate
}

/// An input device offered for recording.
#[derive(Debug, Clone, PartialEq, Eq)]
pub struct InputDevice {
    pub name: String,
    pub is_default: bool,
}

pub struct InputDeviceModel {
    pub name: Seq<char>,
    pub is_default: bool,
}

impl View for InputDevice {
    type V = InputDeviceModel;

    open spec fn view(&self) -> InputDeviceModel {
        InputDeviceModel { name: self.name@, is_default: self.is_default }
    }
}

pub open spec fn device_models(devices: Seq<InputDevice>) -> Seq<InputDeviceModel> {
    devices.map_values(|d: InputDevice| d@)
}

/// Lexicographic order of texts by character, which is the byte order of
/// their UTF-8 forms.
pub open spec fn text_less(a: Seq<char>, b: Seq<char>) -> bool
    decreases a.len(),
{
    if a.len() == 0 {
        b.len() > 0
    } else if b.len() == 0 {
        false
    } else if a[0] != b[0] {
        (a[0] as int) < (b[0] as int)
    } else {
        text_less(a.drop_first(), b.drop_first())
    }
}

/// Whether `a` is listed before `b`: the default device first, then by name.
pub open spec fn device_before(a: InputDeviceModel, b: InputDeviceModel) -> bool {
    (a.is_default && !b.is_default) || (a.is_default == b.is_default && text_less(a.name, b.name))
}

/// `d` inserted after every device it is not listed before.
pub open spec fn insert_device(s: Seq<InputDeviceModel>, d: InputDeviceModel) -> Seq<InputDeviceModel>
    decreases s.len(),
{
    if s.len() == 0 {
        seq![d]
    } else if !device_before(d, s.last()) {
        s.push(d)
    } else {
        insert_device(s.drop_last(), d).push(s.last())
    }
}

/// `s` stably sorted by [`device_before`].
pub open spec fn sorted_devices(s: Seq<InputDeviceModel>) -> Seq<InputDeviceModel>
    decreases s.len(),
{
    if s.len() == 0 {
        s
    } else {
        insert_device(sorted_devices(s.drop_last()), s.last())
    }
}

/// The devices named `names`, the one named `default_name` marked default.
pub open spec fn marked_devices(names: Seq<Seq<char>>, default_name: Option<Seq<char>>) -> Seq<
    InputDeviceModel,
> {
    Seq::new(
        names.len(),
        |i: int| InputDeviceModel { name: names[i], is_default: default_name == Some(names[i]) },
    )
}

pub open spec fn name_views(names: Seq<String>) -> Seq<Seq<char>> {
    names.map_values(|n: String| n@)
}

pub open spec fn optional_view(name: Option<String>) -> Option<Seq<char>> {
    match name {
        Some(n) => Some(n@),
        None => None,
    }
}

/// No device is listed before an earlier one.
pub open spec fn listed_in_order(s: Seq<InputDeviceModel>) -> bool {
    forall|i: int, j: int| 0 <= i < j < s.len() ==> !device_before(#[trigger] s[j], #[trigger] s[i])
}

proof fn lemma_text_less_asymmetric(a: Seq<char>, b: Seq<char>)
    ensures
        text_less(a, b) ==> !text_less(b, a),
    decreases a.len(),
{
    if a.len() > 0 && b.len() > 0 && a[0] == b[0] {
        lemma_text_less_asymmetric(a.drop_first(), b.drop_first());
    }
}

proof fn lemma_text_less_transitive(a: Seq<char>, b: Seq<char>, c: Seq<char>)
    ensures
        text_less(a, b) && text_less(b, c) ==> text_less(a, c),
    decreases a.len(),
{
    if a.len() > 0 && b.len() > 0 && c.len() > 0 && a[0] == b[0] && b[0] == c[0] {
        lemma_text_less_transitive(a.drop_first(), b.drop_first(), c.drop_first());
    }
}

proof fn lemma_text_less_total(a: Seq<char>, b: Seq<char>)
    ensures
        a != b ==> text_less(a, b) || text_less(b, a),
    decreases a.len(),
{
    if a.len() > 0 && b.len() > 0 && a[0] == b[0] {
        lemma_text_less_total(a.drop_first(), b.drop_first());
        if a.drop_first() == b.drop_first() {
            assert(a =~= seq![a[0]] + a.drop_first());
            assert(b =~= seq![b[0]] + b.drop_first());
        }
    } else if a.len() == 0 && b.len() == 0 {
        assert(a =~= b);
    }
}

/// Listing order is a strict total order on devices: of two different
/// devices one is listed before the other, never both, and it is transitive.
proof fn lemma_device_order(a: InputDeviceModel, b: InputDeviceModel, c: InputDeviceModel)
    ensures
        device_before(a, b) ==> !device_before(b, a),
        device_before(a, b) && device_before(b, c) ==> device_before(a, c),
        !device_before(a, b) && !device_before(b, a) ==> a == b,
        !device_before(a, b) && !device_before(b, c) ==> !device_before(a, c),
{
    lemma_text_less_asymmetric(a.name, b.name);
    lemma_text_less_asymmetric(b.name, a.name);
    lemma_text_less_asymmetric(a.name, c.name);
    lemma_text_less_asymmetric(c.name, a.name);
    lemma_text_less_transitive(a.name, b.name, c.name);
    lemma_text_less_transitive(c.name, b.name, a.name);
    lemma_text_less_total(a.name, b.name);
    lemma_text_less_total(b.name, c.name);
    lemma_text_less_total(a.name, c.name);
}

proof fn lemma_insert_device(s: Seq<InputDeviceModel>, d: InputDeviceModel)
    ensures
        insert_device(s, d).to_multiset() =~= s.to_multiset().insert(d),
        listed_in_order(s) ==> listed_in_order(insert_device(s, d)),
    decreases s.len(),
{
    broadcast use vstd::seq_lib::group_to_multiset_ensures;

    let r = insert_device(s, d);
    if s.len() == 0 {
        assert(r =~= Seq::<InputDeviceModel>::empty().push(d));
    } else if !device_before(d, s.last()) {
        if listed_in_order(s) {
            assert forall|i: int, j: int| 0 <= i < j < r.len() implies !device_before(
                #[trigger] r[j],
                #[trigger] r[i],
            ) by {
                if j == s.len() {
                    lemma_device_order(d, s.last(), s[i]);
                }
            }
        }
    } else {
        let rest = s.drop_last();
        let last = s.last();
        lemma_insert_device(rest, d);
        let inner = insert_device(rest, d);
        assert(s =~= rest.push(last));
        assert(r == inner.push(last));
        if listed_in_order(s) {
            assert(listed_in_order(rest)) by {
                assert forall|i: int, j: int| 0 <= i < j < rest.len() implies !device_before(
                    #[trigger] rest[j],
                    #[trigger] rest[i],
                ) by {
                    assert(rest[i] == s[i] && rest[j] == s[j]);
                }
            }
            assert forall|i: int, j: int| 0 <= i < j < r.len() implies !device_before(
                #[trigger] r[j],
                #[trigger] r[i],
            ) by {
                if j == r.len() - 1 {
                    let x = inner[i];
                    assert(inner.contains(x));
                    assert(inner.to_multiset().count(x) > 0);
                    if x == d {
                        lemma_device_order(d, last, d);
                    } else {
                        assert(rest.to_multiset().count(x) > 0);
                        assert(rest.contains(x));
                        let q = choose|q: int| 0 <= q < rest.len() && rest[q] == x;
                        assert(s[q] == x);
                        assert(!device_before(s[s.len() - 1], s[q]));
                    }
                } else {
                    assert(r[i] == inner[i] && r[j] == inner[j]);
                }
            }
        }
    }
}

/// Ordering the devices keeps every device, as often as it occurs, and
/// lists them default first and then by name.
pub proof fn lemma_sorted_devices(s: Seq<InputDeviceModel>)
    ensures
        sorted_devices(s).to_multiset() =~= s.to_multiset(),
        listed_in_order(sorted_devices(s)),
    decreases s.len(),
{
    broadcast use vstd::seq_lib::group_to_multiset_ensures;

    if s.len() > 0 {
        let rest = s.drop_last();
        lemma_sorted_devices(rest);
        lemma_insert_device(sorted_devices(rest), s.last());
        assert(s =~= rest.push(s.last()));
    }
}

proof fn lemma_text_less_step(a: Seq<char>, b: Seq<char>, i: int)
    requires
        0 <= i < a.len(),
        i < b.len(),
        a[i] == b[i],
    ensures
        text_less(a.skip(i), b.skip(i)) == text_less(a.skip(i + 1), b.skip(i + 1)),
{
    assert(a.skip(i).drop_first() =~= a.skip(i + 1));
    assert(b.skip(i).drop_first() =~= b.skip(i + 1));
}

/// Whether `a` sorts before `b` by character.
fn name_less(a: &str, b: &str) -> (less: bool)
    ensures
        less == text_less(a@, b@),
{
    let n = a.unicode_len();
    let m = b.unicode_len();
    let mut i: usize = 0;
    assert(a@.skip(0) =~= a@);
    assert(b@.skip(0) =~= b@);
    while i < n && i < m
        invariant
            n == a@.len(),
            m == b@.len(),
            i <= n,
            i <= m,
            text_less(a@, b@) == text_less(a@.skip(i as int), b@.skip(i as int)),
        decreases n - i,
    {
        let x = a.get_char(i);
        let y = b.get_char(i);
        if x != y {
            assert(a@.skip(i as int)[0] == x);
            assert(b@.skip(i as int)[0] == y);
            return (x as u32) < (y as u32);
        }
        proof {
            lemma_text_less_step(a@, b@, i as int);
        }
        i = i + 1;
    }
    assert(i == n ==> a@.skip(i as int).len() == 0);
    assert(i == m ==> b@.skip(i as int).len() == 0);
    i == n && i < m
}

fn before(a: &InputDevice, b: &InputDevice) -> (earlier: bool)
    ensures
        earlier == device_before(a@, b@),
{
    (a.is_default && !b.is_default) || (a.is_default == b.is_default && name_less(
        a.name.as_str(),
        b.name.as_str(),
    ))
}

proof fn lemma_insert_device_at(s: Seq<InputDeviceModel>, d: InputDeviceModel, j: int)
    requires
        0 <= j <= s.len(),
        forall|k: int| j <= k < s.len() ==> device_before(d, #[trigger] s[k]),
        j > 0 ==> !device_before(d, s[j - 1]),
    ensures
        insert_device(s, d) == s.insert(j, d),
    decreases s.len(),
{
    if s.len() == 0 {
        assert(s.insert(j, d) =~= seq![d]);
    } else if j == s.len() {
        assert(s.insert(j, d) =~= s.push(d));
    } else {
        let rest = s.drop_last();
        assert(device_before(d, s[s.len() - 1]));
        assert forall|k: int| j <= k < rest.len() implies device_before(d, #[trigger] rest[k]) by {
            assert(rest[k] == s[k]);
        }
        if j > 0 {
            assert(rest[j - 1] == s[j - 1]);
        }
        lemma_insert_device_at(rest, d, j);
        assert(rest.insert(j, d).push(s.last()) =~= s.insert(j, d));
    }
}

/// Inserts `d` where [`insert_device`] puts it.
fn insert_in_list(list: &mut Vec<InputDevice>, d: InputDevice)
    ensures
        device_models(final(list)@) == insert_device(device_models(old(list)@), d@),
{
    let ghost s = device_models(list@);
    let mut j: usize = list.len();
    while j > 0 && before(&d, &list[j - 1])
        invariant
            j <= list@.len(),
            s == device_models(list@),
            forall|k: int| j <= k < s.len() ==> device_before(d@, #[trigger] s[k]),
        decreases j,
    {
        assert(s[j - 1] == list@[j - 1]@);
        j = j - 1;
    }
    proof {
        if j > 0 {
            assert(s[j - 1] == list@[j - 1]@);
        }
        lemma_insert_device_at(s, d@, j as int);
    }
    let ghost dv = d@;
    list.insert(j, d);
    assert(device_models(list@) =~= s.insert(j as int, dv));
}

/// The input devices named `names`, the one named `default_name` marked as
/// the default, listed default first and then by name.
pub fn order_input_devices(names: Vec<String>, default_name: Option<String>) -> (devices: Vec<
    InputDevice,
>)
    ensures
        device_models(devices@) == sorted_devices(
            marked_devices(name_views(names@), optional_view(default_name)),
        ),
{
    let ghost marked = marked_devices(name_views(names@), optional_view(default_name));
    let mut devices: Vec<InputDevice> = Vec::new();
    let mut i: usize = 0;
    assert(marked.take(0) =~= Seq::<InputDeviceModel>::empty());
    assert(device_models(devices@) =~= Seq::<InputDeviceModel>::empty());
    while i < names.len()
        invariant
            i <= names@.len(),
            marked == marked_devices(name_views(names@), optional_view(default_name)),
            device_models(devices@) == sorted_devices(marked.take(i as int)),
        decreases names.len() - i,
    {
        let name = names[i].clone();
        let is_default = match &default_name {
            Some(default) => *default == name,
            None => false,
        };
        proof {
            assert(name_views(names@)[i as int] == names@[i as int]@);
            assert(marked.take(i + 1).drop_last() =~= marked.take(i as int));
        }
        let device = InputDevice { name, is_default };
        assert(device@ == marked[i as int]);
        insert_in_list(&mut devices, device);
        i = i + 1;
    }
    assert(marked.take(i as int) =~= marked);
    devices
}

} // verus!
