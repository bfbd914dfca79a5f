//! Where the samples come from: the choice of the serial port, and of the source.

use crate::text::{contains, lowercase, occurs, parts_of_parts_occur, stands_at, to_lowercase};
use vstd::prelude::*;
use vstd::string::*;

verus! {

/// What a USB device says of itself.
pub struct UsbInfo {
    pub manufacturer: Option<String>,
    pub product: Option<String>,
}

/// A serial port: its name, and its device if it is one on USB.
pub struct PortInfo {
    pub name: String,
    pub usb: Option<UsbInfo>,
}

/// The texts by which a port is recognised: its name, the name in lowercase, and a description
/// in lowercase.
pub struct PortWords {
    pub name: String,
    pub name_low: String,
    pub description: String,
}

/// The model of `PortWords`.
#[verifier::ext_equal]
pub struct PortText {
    pub name: Seq<char>,
    pub name_low: Seq<char>,
    pub description: Seq<char>,
}

impl View for PortWords {
    type V = PortText;

    open spec fn view(&self) -> PortText {
        PortText {
            name: self.name@,
            name_low: self.name_low@,
            description: self.description@,
        }
    }
}

/// The lowercase form of a text that may be missing.
pub open spec fn lowercase_or_empty(s: Option<String>) -> Seq<char> {
    match s {
        Some(text) => lowercase(text@),
        None => Seq::empty(),
    }
}

/// The description of a device: manufacturer and product in lowercase, with a space between.
pub open spec fn description_of(usb: Option<UsbInfo>) -> Seq<char> {
    match usb {
        Some(info) => lowercase_or_empty(info.manufacturer) + seq![' '] + lowercase_or_empty(
            info.product,
        ),
        None => Seq::empty(),
    }
}

/// The texts of a port.
pub open spec fn text_of(port: PortInfo) -> PortText {
    PortText {
        name: port.name@,
        name_low: lowercase(port.name@),
        description: description_of(port.usb),
    }
}

impl PortText {
    /// The port is that of a Pico, by the words in its name or its description.
    pub open spec fn names_a_pico(self) -> bool {
        ||| occurs("usbmodem"@, self.name_low)
        ||| occurs("pico"@, self.description)
        ||| occurs("rp2040"@, self.description)
        ||| occurs("raspberry"@, self.description)
    }

    /// The port is named as one is to which a Pico could be attached.
    pub open spec fn could_be_a_pico(self) -> bool {
        occurs("usbmodem"@, self.name) || occurs("ttyACM"@, self.name)
    }
}

/// The texts by which a port is recognised.
pub fn port_words(port: &PortInfo) -> (res: PortWords)
    ensures
        res@ == text_of(*port),
{
    let mut description = String::new();
    match &port.usb {
        Some(info) => {
            match &info.manufacturer {
                Some(m) => {
                    description.append(to_lowercase(m.as_str()).as_str());
                },
                None => {},
            }
            proof {
                reveal_strlit(" ");
            }
            description.append(" ");
            match &info.product {
                Some(p) => {
                    description.append(to_lowercase(p.as_str()).as_str());
                },
                None => {},
            }
            assert(description@ == description_of(port.usb));
        },
        None => {},
    }
    PortWords { name: port.name.clone(), name_low: to_lowercase(port.name.as_str()), description }
}

/// The first port, from number `from` on, with the property.
pub open spec fn first_port(
    ports: Seq<PortText>,
    property: spec_fn(PortText) -> bool,
    from: int,
) -> Option<int>
    decreases ports.len() - from,
{
    if from >= ports.len() {
        None
    } else if property(ports[from]) {
        Some(from)
    } else {
        first_port(ports, property, from + 1)
    }
}

/// The port to take: the first that names a Pico; where none does, the first that could be one.
pub open spec fn choice(ports: Seq<PortText>) -> Option<int> {
    match first_port(ports, |p: PortText| p.names_a_pico(), 0) {
        Some(i) => Some(i),
        None => first_port(ports, |p: PortText| p.could_be_a_pico(), 0),
    }
}

/// A port is taken exactly if some port has the property, and then it is the first one.
proof fn lemma_first_port(ports: Seq<PortText>, property: spec_fn(PortText) -> bool, from: int)
    requires
        0 <= from,
    ensures
        match first_port(ports, property, from) {
            Some(i) => {
                &&& from <= i < ports.len()
                &&& property(ports[i])
                &&& forall|j: int| from <= j < i ==> !property(#[trigger] ports[j])
            },
            None => forall|j: int| from <= j < ports.len() ==> !property(#[trigger] ports[j]),
        },
    decreases ports.len() - from,
{
    if from < ports.len() && !property(ports[from]) {
        lemma_first_port(ports, property, from + 1);
    }
}

/// A port that names a Pico goes before every other. Of several, the first in the list is
/// taken. No port is taken only if none names a Pico or could be one.
pub proof fn choice_prefers_named_ports(ports: Seq<PortText>)
    ensures
        match choice(ports) {
            Some(i) => {
                &&& 0 <= i < ports.len()
                &&& ports[i].names_a_pico() || ports[i].could_be_a_pico()
                &&& (exists|j: int| 0 <= j < ports.len() && (#[trigger] ports[j]).names_a_pico())
                    ==> ports[i].names_a_pico()
                &&& forall|j: int|
                    0 <= j < i ==> !(#[trigger] ports[j]).names_a_pico() && (
                    ports[i].names_a_pico() || !ports[j].could_be_a_pico())
            },
            None => forall|j: int|
                0 <= j < ports.len() ==> !(#[trigger] ports[j]).names_a_pico()
                    && !ports[j].could_be_a_pico(),
        },
{
    lemma_first_port(ports, |p: PortText| p.names_a_pico(), 0);
    lemma_first_port(ports, |p: PortText| p.could_be_a_pico(), 0);
}

/// The texts of all the ports.
pub open spec fn texts(words: Seq<PortWords>) -> Seq<PortText> {
    words.map_values(|w: PortWords| w@)
}

/// Chooses the port of the Pico, if there is one, by the texts of the ports.
pub fn choose_port(ports: &Vec<PortWords>) -> (res: Option<usize>)
    ensures
        match (res, choice(texts(ports@))) {
            (Some(i), Some(k)) => i == k && i < ports.len(),
            (None, None) => true,
            _ => false,
        },
{
    let ghost named = |p: PortText| p.names_a_pico();
    let ghost possible = |p: PortText| p.could_be_a_pico();
    let ghost ts = texts(ports@);
    let mut i: usize = 0;
    while i < ports.len()
        invariant
            i <= ports.len(),
            named == (|p: PortText| p.names_a_pico()),
            ts == texts(ports@),
            first_port(ts, named, 0) == first_port(ts, named, i as int),
        decreases ports.len() - i,
    {
        let p = &ports[i];
        assert(ts[i as int] == p@);
        if contains(p.name_low.as_str(), "usbmodem") || contains(p.description.as_str(), "pico")
            || contains(p.description.as_str(), "rp2040") || contains(
            p.description.as_str(),
            "raspberry",
        ) {
            return Some(i);
        }
        i += 1;
    }
    let mut k: usize = 0;
    while k < ports.len()
        invariant
            k <= ports.len(),
            named == (|p: PortText| p.names_a_pico()),
            possible == (|p: PortText| p.could_be_a_pico()),
            ts == texts(ports@),
            first_port(ts, named, 0) is None,
            first_port(ts, possible, 0) == first_port(ts, possible, k as int),
        decreases ports.len() - k,
    {
        let p = &ports[k];
        assert(ts[k as int] == p@);
        if contains(p.name.as_str(), "usbmodem") || contains(p.name.as_str(), "ttyACM") {
            return Some(k);
        }
        k += 1;
    }
    None
}

/// The name of the port of the Pico among the serial ports of the machine, if there is one.
pub fn auto_detect_pico_port(ports: &Vec<PortInfo>) -> (res: Option<String>)
    ensures
        match (res, choice(ports@.map_values(|p: PortInfo| text_of(p)))) {
            (Some(name), Some(i)) => name@ == ports@[i].name@,
            (None, None) => true,
            _ => false,
        },
{
    let mut words: Vec<PortWords> = Vec::new();
    let mut i: usize = 0;
    while i < ports.len()
        invariant
            i <= ports.len(),
            words.len() == i,
            forall|j: int| 0 <= j < i ==> (#[trigger] words@[j])@ == text_of(ports@[j]),
        decreases ports.len() - i,
    {
        words.push(port_words(&ports[i]));
        i += 1;
    }
    assert(texts(words@) == ports@.map_values(|p: PortInfo| text_of(p)));
    match choose_port(&words) {
        Some(k) => Some(ports[k].name.clone()),
        None => None,
    }
}

/// Where the samples come from.
pub enum SourcePlan {
    /// The synthetic signal, as asked for.
    Demo,
    /// The Pico on this port.
    Pico(String),
    /// The synthetic signal, because there is no Pico.
    Fallback,
}

/// Whether the ports have to be searched: neither the synthetic signal nor a port was asked for.
pub fn needs_detection(demo: bool, port: &Option<String>) -> (res: bool)
    ensures
        res == (!demo && port is None),
{
    !demo && port.is_none()
}

/// The source for what was asked for on the command line and the port that was found.
pub fn plan_source(demo: bool, port: Option<String>, detected: Option<String>) -> (res: SourcePlan)
    ensures
        res == if demo {
            SourcePlan::Demo
        } else {
            match (port, detected) {
                (Some(p), _) => SourcePlan::Pico(p),
                (None, Some(p)) => SourcePlan::Pico(p),
                (None, None) => SourcePlan::Fallback,
            }
        },
{
    if demo {
        return SourcePlan::Demo;
    }
    match port {
        Some(p) => SourcePlan::Pico(p),
        None => match detected {
            Some(p) => SourcePlan::Pico(p),
            None => SourcePlan::Fallback,
        },
    }
}

/// Each of the words pico, rp2040 and raspberry in the description, and usbmodem in the name in
/// lowercase, names a Pico, whatever else stands in the texts; and nothing else does.
pub proof fn each_word_names_a_pico(p: PortText)
    ensures
        occurs("pico"@, p.description) ==> p.names_a_pico(),
        occurs("rp2040"@, p.description) ==> p.names_a_pico(),
        occurs("raspberry"@, p.description) ==> p.names_a_pico(),
        occurs("usbmodem"@, p.name_low) ==> p.names_a_pico(),
        p.names_a_pico() && !occurs("usbmodem"@, p.name_low) ==> occurs("pico"@, p.description)
            || occurs("rp2040"@, p.description) || occurs("raspberry"@, p.description),
{
}

/// A port could be that of a Pico exactly if its name as it stands holds usbmodem or ttyACM.
pub proof fn either_name_could_be_a_pico(p: PortText)
    ensures
        occurs("usbmodem"@, p.name) ==> p.could_be_a_pico(),
        occurs("ttyACM"@, p.name) ==> p.could_be_a_pico(),
        p.could_be_a_pico() && !occurs("usbmodem"@, p.name) ==> occurs("ttyACM"@, p.name),
{
}

/// More text around the description or the name never hides a Pico.
pub proof fn more_text_hides_no_pico(p: PortText, before: Seq<char>, after: Seq<char>)
    ensures
        p.names_a_pico() ==> (PortText {
            description: before + p.description + after,
            ..p
        }).names_a_pico(),
        p.names_a_pico() ==> (PortText {
            name_low: before + p.name_low + after,
            ..p
        }).names_a_pico(),
        p.could_be_a_pico() ==> (PortText { name: before + p.name + after, ..p }).could_be_a_pico(),
{
    if occurs("pico"@, p.description) {
        parts_of_parts_occur("pico"@, before, p.description, after);
    }
    if occurs("rp2040"@, p.description) {
        parts_of_parts_occur("rp2040"@, before, p.description, after);
    }
    if occurs("raspberry"@, p.description) {
        parts_of_parts_occur("raspberry"@, before, p.description, after);
    }
    if occurs("usbmodem"@, p.name_low) {
        parts_of_parts_occur("usbmodem"@, before, p.name_low, after);
    }
    if occurs("usbmodem"@, p.name) {
        parts_of_parts_occur("usbmodem"@, before, p.name, after);
    }
    if occurs("ttyACM"@, p.name) {
        parts_of_parts_occur("ttyACM"@, before, p.name, after);
    }
}

/// The texts of a port are its name, that in lowercase, and for a device on USB its maker and its
/// product in lowercase with one space between them; what a device does not say is left out, and
/// a port that is none on USB has no description.
pub proof fn texts_are_those_of_the_port(port: PortInfo)
    ensures
        ({
            let t = text_of(port);
            &&& t.name == port.name@
            &&& t.name_low == lowercase(port.name@)
            &&& port.usb is None ==> t.description.len() == 0
            &&& port.usb matches Some(info) ==> {
                let maker = match info.manufacturer {
                    Some(m) => lowercase(m@),
                    None => seq![],
                };
                let product = match info.product {
                    Some(p) => lowercase(p@),
                    None => seq![],
                };
                &&& stands_at(maker, t.description, 0)
                &&& t.description[maker.len() as int] == ' '
                &&& stands_at(product, t.description, 1int + maker.len())
                &&& t.description.len() == maker.len() + 1 + product.len()
            }
        }),
{
    if let Some(info) = port.usb {
        let maker = lowercase_or_empty(info.manufacturer);
        let product = lowercase_or_empty(info.product);
        let d = description_of(port.usb);
        assert(d.subrange(0, maker.len() as int) == maker);
        assert(d.subrange(1int + maker.len(), d.len() as int) == product);
    }
}

/// A device whose maker or product has one of the three words in it, in lowercase, names a Pico.
pub proof fn device_that_says_so_is_a_pico(port: PortInfo, text: String)
    requires
        port.usb is Some,
        port.usb->0.manufacturer == Some(text) || port.usb->0.product == Some(text),
        occurs("pico"@, lowercase(text@)) || occurs("rp2040"@, lowercase(text@)) || occurs(
            "raspberry"@,
            lowercase(text@),
        ),
    ensures
        text_of(port).names_a_pico(),
{
    let info = port.usb->0;
    let d = text_of(port).description;
    let maker = lowercase_or_empty(info.manufacturer);
    let product = lowercase_or_empty(info.product);
    let s = lowercase(text@);
    let (before, after) = if info.manufacturer == Some(text) {
        (Seq::<char>::empty(), seq![' '] + product)
    } else {
        (maker + seq![' '], Seq::<char>::empty())
    };
    assert(d == before + s + after);
    if occurs("pico"@, s) {
        parts_of_parts_occur("pico"@, before, s, after);
    }
    if occurs("rp2040"@, s) {
        parts_of_parts_occur("rp2040"@, before, s, after);
    }
    if occurs("raspberry"@, s) {
        parts_of_parts_occur("raspberry"@, before, s, after);
    }
}

/// One port that names a Pico is enough for a port to be taken that does, and one that could be
/// one is enough for a port to be taken, whatever the others are. Ports that are neither change
/// nothing: with one more of them at the end the choice is the same.
pub proof fn one_pico_is_enough(ports: Seq<PortText>, j: int, other: PortText)
    requires
        0 <= j < ports.len(),
    ensures
        ports[j].names_a_pico() ==> choice(ports) is Some && choice(ports)->0 <= j
            && ports[choice(ports)->0].names_a_pico(),
        ports[j].could_be_a_pico() ==> choice(ports) is Some,
        !other.names_a_pico() && !other.could_be_a_pico() ==> choice(ports.push(other)) == choice(
            ports,
        ),
{
    let more = ports.push(other);
    choice_prefers_named_ports(ports);
    choice_prefers_named_ports(more);
    assert(ports[j].names_a_pico() ==> exists|k: int|
        0 <= k < ports.len() && (#[trigger] ports[k]).names_a_pico());
    assert(forall|k: int| 0 <= k < ports.len() ==> more[k] == #[trigger] ports[k]);
    assert(more[ports.len() as int] == other);
    if !other.names_a_pico() && !other.could_be_a_pico() {
        match (choice(ports), choice(more)) {
            (Some(a), Some(b)) => {
                assert(b < ports.len());
                assert(more[a] == ports[a] && more[b] == ports[b]);
                if ports[a].names_a_pico() {
                    assert(more[a].names_a_pico());
                }
                if more[b].names_a_pico() {
                    assert(ports[b].names_a_pico());
                }
            },
            (Some(a), None) => {
                assert(more[a] == ports[a]);
            },
            (None, Some(b)) => {
                assert(b < ports.len());
                assert(more[b] == ports[b]);
            },
            (None, None) => {},
        }
    }
}

/// The texts of several ports are those of each, in order.
pub proof fn texts_are_taken_one_by_one(words: Seq<PortWords>, i: int)
    requires
        0 <= i < words.len(),
    ensures
        texts(words).len() == words.len(),
        texts(words)[i].name == words[i].name@,
        texts(words)[i].name_low == words[i].name_low@,
        texts(words)[i].description == words[i].description@,
{
}

} // verus!
