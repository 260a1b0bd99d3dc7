//! Resource records: the entries of a resource map, and the typed records
//! that resource editors show (colour tables, templates, bundles, jump
//! tables, string lists, versions, dialogs, menus, size requirements).
use vstd::prelude::*;

use crate::common::{DynamicPascalString, Point, Rect, SizedString, Style};

verus! {

/// A resource: its identifier, its four-character type, its bytes, and its
/// name if it has one.
#[derive(Clone, Debug)]
pub struct Resource {
    pub id: i16,
    pub ty: SizedString<4>,
    pub data: Vec<u8>,
    pub name: Option<DynamicPascalString>,
}

impl Resource {
    pub fn id(&self) -> (r: i16)
        ensures
            r == self.id,
    {
        self.id
    }

    pub fn data(&self) -> (r: &[u8])
        ensures
            r@ == self.data@,
    {
        self.data.as_slice()
    }

    pub fn ty(&self) -> (r: &SizedString<4>)
        ensures
            *r == self.ty,
    {
        &self.ty
    }

    /// The name's bytes, where the resource has a name.
    pub fn name(&self) -> (r: Option<&[u8]>)
        ensures
            r is Some <==> self.name is Some,
            r matches Some(n) ==> n@ == self.name->Some_0.data@,
    {
        match &self.name {
            Some(n) => Some(n.data.as_slice()),
            None => None,
        }
    }
}

/// The header of a resource map.
#[derive(Clone, Copy, Debug, PartialEq, Eq)]
pub struct MapHeader {
    pub fork_attrs: u16,
    pub type_list_offset: u16,
    pub name_list_offset: u16,
    pub type_count_minus_one: u16,
}

/// An entry of the type list of a resource map.
#[derive(Clone, Copy, Debug, PartialEq, Eq)]
pub struct Type {
    pub ty: SizedString<4>,
    pub ref_count_minus_one: u16,
    pub ref_list_offset: u16,
}

/// An entry of the reference list of a resource map.
#[derive(Clone, Copy, Debug, PartialEq, Eq)]
pub struct Reference {
    pub res_id: i16,
    pub name_offset: Option<u16>,
    pub attrs: u8,
    pub data_offset: u32,
}

/// A resource fork as stored: its offsets, data area and map.
#[derive(Clone, Debug)]
pub struct RawResource {
    pub data_offset: u32,
    pub map_offset: u32,
    pub data_len: u32,
    pub map_len: u32,
    pub data: Vec<u8>,
    pub map: MapHeader,
    pub types: Vec<Type>,
    pub refs: Vec<Reference>,
}

/// A colour table.
#[derive(Clone, Debug)]
pub struct ColorLut {
    pub seed: SizedString<4>,
    pub flags: u16,
    pub size: u16,
    pub entries: Vec<ClutEntry>,
}

impl ColorLut {
    pub fn entries(&self) -> (r: &[ClutEntry])
        ensures
            r@ == self.entries@,
    {
        self.entries.as_slice()
    }

    pub fn entries_mut(&mut self) -> (r: &mut Vec<ClutEntry>)
        ensures
            *r == old(self).entries,
            final(self).entries == *final(r),
            final(self).seed == old(self).seed,
            final(self).flags == old(self).flags,
            final(self).size == old(self).size,
    {
        &mut self.entries
    }
}

/// A colour table entry: a pixel value and its red, green and blue.
#[derive(Clone, Copy, Debug, PartialEq, Eq)]
pub struct ClutEntry {
    pub pixel: u16,
    pub rgb: [u16; 3],
}

impl ClutEntry {
    pub fn pixel(&self) -> (r: u16)
        ensures
            r == self.pixel,
    {
        self.pixel
    }

    pub fn r(&self) -> (r: u16)
        ensures
            r == self.rgb[0],
    {
        self.rgb[0]
    }

    pub fn g(&self) -> (r: u16)
        ensures
            r == self.rgb[1],
    {
        self.rgb[1]
    }

    pub fn b(&self) -> (r: u16)
        ensures
            r == self.rgb[2],
    {
        self.rgb[2]
    }
}

/// A resource template: the fields an editor shows.
#[derive(Clone, Debug)]
pub struct Template {
    pub fields: Vec<Field>,
}

impl Template {
    pub fn fields(&self) -> (r: &[Field])
        ensures
            r@ == self.fields@,
    {
        self.fields.as_slice()
    }
}

/// A template field: its label and its kind.
#[derive(Clone, Debug)]
pub struct Field {
    pub name: DynamicPascalString,
    pub ty: FieldType,
}

impl Field {
    /// The label's bytes.
    pub fn name(&self) -> (r: &[u8])
        ensures
            r@ == self.name.data@,
    {
        self.name.data.as_slice()
    }

    pub fn ty(&self) -> (r: &FieldType)
        ensures
            *r == self.ty,
    {
        &self.ty
    }
}

/// The kind of a template field, from its four-character code.
#[derive(Clone, Copy, Debug, PartialEq, Eq)]
pub enum FieldType {
    SignedDecimalByte,
    SignedDecimalWord,
    SignedDecimalLong,
    UnsignedHexByte,
    UnsignedHexWord,
    UnsignedHexLong,
    BitflagByte,
    BoolWord,
    AsciiChar,
    TypeName,
    QuickDrawPoint,
    QuickDrawRect,
    PascalString,
    EvenPaddedPascalString,
    OddPaddedPascalString,
    CString,
    EvenPaddedCString,
    OddPaddedCString,
    WordLengthString,
    LongLengthString,
    HexDump,
    OneBasedCount,
    ZeroBasedCount,
    BeginCountedListItem,
    BeginNonCountedListItem,
    BeginListItemNullTerminated,
    EndListItem,
    AlingToWord,
    AlignToLong,
    FillByte,
    FillWord,
    FillLong,
    Unknown(SizedString<4>),
}

/// The font list of the system file.
#[derive(Clone, Debug)]
pub struct SystemFonts {
    pub count: u16,
    pub ids: Vec<i16>,
}

/// A bitmap font header.
#[derive(Clone, Debug)]
pub struct Font {
    pub font_type: u16,
    pub first_char: u16,
    pub last_char: u16,
    pub wid_max: u16,
    pub kern_max: u16,
    pub ndescent: u16,
    pub f_rect_width: u16,
    pub f_rect_height: u16,
    pub owt_loc: u16,
    pub ascent: u16,
    pub descent: u16,
    pub leading: u16,
    pub row_words: u16,
    pub bit_img: Vec<u8>,
    pub location_table: Vec<u8>,
}

/// A bundle: the application signature and its icon and file-reference maps.
#[derive(Clone, Debug)]
pub struct Bundle {
    pub sig: SizedString<4>,
    pub version_res_id: i16,
    pub resource_type_count_minus_one: u16,
    pub resources: Vec<BundleResType>,
}

impl Bundle {
    pub fn sig(&self) -> (r: &[u8; 4])
        ensures
            r@ == self.sig.data@,
    {
        &self.sig.data
    }

    pub fn types(&self) -> (r: &[BundleResType])
        ensures
            r@ == self.resources@,
    {
        self.resources.as_slice()
    }
}

/// One resource type of a bundle with its local-to-actual identifier map.
#[derive(Clone, Debug)]
pub struct BundleResType {
    pub res_type: SizedString<4>,
    pub res_count_minus_one: u16,
    pub map: Vec<BundleResMap>,
}

impl BundleResType {
    pub fn type_code(&self) -> (r: &[u8; 4])
        ensures
            r@ == self.res_type.data@,
    {
        &self.res_type.data
    }

    pub fn res_map(&self) -> (r: &[BundleResMap])
        ensures
            r@ == self.map@,
    {
        self.map.as_slice()
    }
}

/// A local identifier and the resource identifier it stands for.
#[derive(Clone, Copy, Debug, PartialEq, Eq)]
pub struct BundleResMap {
    pub local: i16,
    pub actual: i16,
}

/// Segment 0 of an application: the A5 world sizes and the jump table.
#[derive(Clone, Debug)]
pub struct Code0 {
    pub above_a5_size: u32,
    pub below_a5_size: u32,
    pub jump_table_size: u32,
    pub jump_table_offset: u32,
    pub jump_table: Vec<JumpEntry>,
}

impl Code0 {
    pub fn below_a5_size(&self) -> (r: u32)
        ensures
            r == self.below_a5_size,
    {
        self.below_a5_size
    }

    pub fn above_a5_size(&self) -> (r: u32)
        ensures
            r == self.above_a5_size,
    {
        self.above_a5_size
    }

    pub fn entries(&self) -> (r: &[JumpEntry])
        ensures
            r@ == self.jump_table@,
    {
        self.jump_table.as_slice()
    }
}

/// A jump table entry.
#[derive(Clone, Copy, Debug, PartialEq, Eq)]
pub struct JumpEntry {
    pub routine_offset: u16,
    pub load_segment_number: u32,
    pub loadseg: u16,
}

impl JumpEntry {
    pub fn routine_offset(&self) -> (r: u16)
        ensures
            r == self.routine_offset,
    {
        self.routine_offset
    }

    pub fn load_segment_number(&self) -> (r: u32)
        ensures
            r == self.load_segment_number,
    {
        self.load_segment_number
    }
}

/// A list of Pascal strings.
#[derive(Clone, Debug)]
pub struct StringList {
    pub length: u16,
    pub list: Vec<DynamicPascalString>,
}

impl StringList {
    pub fn list(&self) -> (r: &[DynamicPascalString])
        ensures
            r@ == self.list@,
    {
        self.list.as_slice()
    }

    pub fn list_mut(&mut self) -> (r: &mut Vec<DynamicPascalString>)
        ensures
            *r == old(self).list,
            final(self).list == *final(r),
            final(self).length == old(self).length,
    {
        &mut self.list
    }
}

/// The value of a binary-coded decimal byte.
pub open spec fn bcd_value(v: u8) -> nat {
    (v as nat / 16) * 10 + v as nat % 16
}

/// Decodes a binary-coded decimal byte.
pub fn from_bcd(v: u8) -> (r: u8)
    ensures
        r as nat == bcd_value(v),
{
    let hi = v / 16;
    let lo = v % 16;
    hi * 10 + lo
}

/// Release stages of a version record.
#[derive(Clone, Copy, Debug, PartialEq, Eq, Structural)]
pub enum DevelopmentStage {
    PreAlpha,
    Alpha,
    Beta,
    Released,
}

impl DevelopmentStage {
    /// The stage of a version record's stage byte.
    pub fn from_u8(v: u8) -> (r: Option<DevelopmentStage>)
        ensures
            r == (if v == 0x20 {
                Some(DevelopmentStage::PreAlpha)
            } else if v == 0x40 {
                Some(DevelopmentStage::Alpha)
            } else if v == 0x60 {
                Some(DevelopmentStage::Beta)
            } else if v == 0x80 {
                Some(DevelopmentStage::Released)
            } else {
                None::<DevelopmentStage>
            }),
    {
        if v == 0x20 {
            Some(DevelopmentStage::PreAlpha)
        } else if v == 0x40 {
            Some(DevelopmentStage::Alpha)
        } else if v == 0x60 {
            Some(DevelopmentStage::Beta)
        } else if v == 0x80 {
            Some(DevelopmentStage::Released)
        } else {
            None
        }
    }
}

/// A version record.
#[derive(Clone, Debug)]
pub struct Version {
    pub major: u8,
    pub minor: u8,
    pub development_stage: DevelopmentStage,
    pub prerelease_revision: u8,
    pub region: u16,
    pub version_number: DynamicPascalString,
    pub version_message: DynamicPascalString,
}

impl Version {
    pub fn version_string_short_mut(&mut self) -> (r: &mut Vec<u8>)
        ensures
            *r == old(self).version_number.data,
            final(self).version_number.data == *final(r),
            final(self).version_message == old(self).version_message,
            final(self).major == old(self).major,
            final(self).minor == old(self).minor,
    {
        self.version_number.as_mut()
    }

    pub fn version_string_long_mut(&mut self) -> (r: &mut Vec<u8>)
        ensures
            *r == old(self).version_message.data,
            final(self).version_message.data == *final(r),
            final(self).version_number == old(self).version_number,
            final(self).major == old(self).major,
            final(self).minor == old(self).minor,
    {
        self.version_message.as_mut()
    }

    pub fn region_code_mut(&mut self) -> (r: &mut u16)
        ensures
            *r == old(self).region,
            final(self).region == *final(r),
            final(self).major == old(self).major,
            final(self).minor == old(self).minor,
    {
        &mut self.region
    }

    pub fn region_code(&self) -> (r: u16)
        ensures
            r == self.region,
    {
        self.region
    }

    pub fn major_mut(&mut self) -> (r: &mut u8)
        ensures
            *r == old(self).major,
            final(self).major == *final(r),
            final(self).minor == old(self).minor,
    {
        &mut self.major
    }

    pub fn minor(&self) -> (r: u8)
        ensures
            r == self.minor,
    {
        self.minor
    }

    pub fn major(&self) -> (r: u8)
        ensures
            r == self.major,
    {
        self.major
    }

    pub fn set_minor(&mut self, minor: u8)
        ensures
            final(self).minor == minor,
            final(self).major == old(self).major,
            final(self).development_stage == old(self).development_stage,
            final(self).prerelease_revision == old(self).prerelease_revision,
            final(self).region == old(self).region,
    {
        self.minor = minor;
    }

    pub fn prerelease_mut(&mut self) -> (r: &mut u8)
        ensures
            *r == old(self).prerelease_revision,
            final(self).prerelease_revision == *final(r),
            final(self).major == old(self).major,
            final(self).minor == old(self).minor,
    {
        &mut self.prerelease_revision
    }

    pub fn development_stage(&self) -> (r: DevelopmentStage)
        ensures
            r == self.development_stage,
    {
        self.development_stage
    }

    pub fn development_stage_mut(&mut self) -> (r: &mut DevelopmentStage)
        ensures
            *r == old(self).development_stage,
            final(self).development_stage == *final(r),
            final(self).major == old(self).major,
            final(self).minor == old(self).minor,
    {
        &mut self.development_stage
    }
}

/// A file reference of a bundle: a file type and its icon.
#[derive(Clone, Debug)]
pub struct FileReference {
    pub ty: SizedString<4>,
    pub icon_id: i16,
    pub filename: DynamicPascalString,
}

impl FileReference {
    pub fn ty(&self) -> (r: &[u8; 4])
        ensures
            r@ == self.ty.data@,
    {
        &self.ty.data
    }

    pub fn icon_id(&self) -> (r: i16)
        ensures
            r == self.icon_id,
    {
        self.icon_id
    }

    pub fn filename(&self) -> (r: &[u8])
        ensures
            r@ == self.filename.data@,
    {
        self.filename.data.as_slice()
    }
}

/// The item list of a dialog or alert.
#[derive(Clone, Debug)]
pub struct ItemList {
    pub count_minus_one: u16,
    pub list: Vec<Item>,
}

impl ItemList {
    pub fn items(&self) -> (r: &[Item])
        ensures
            r@ == self.list@,
    {
        self.list.as_slice()
    }

    pub fn items_mut(&mut self) -> (r: &mut Vec<Item>)
        ensures
            *r == old(self).list,
            final(self).list == *final(r),
            final(self).count_minus_one == old(self).count_minus_one,
    {
        &mut self.list
    }
}

/// A dialog item: its frame, its type byte, and what it shows.
#[derive(Clone, Debug)]
pub struct Item {
    pub rect: Rect,
    pub ty: u8,
    pub item_type: ItemType,
}

impl Item {
    pub fn rect(&self) -> (r: &Rect)
        ensures
            *r == self.rect,
    {
        &self.rect
    }

    /// The item reacts to clicks: the top bit of its type byte is set.
    pub fn enabled(&self) -> (r: bool)
        ensures
            r == (self.ty >= 0x80),
    {
        self.ty >= 0x80
    }

    pub fn data(&self) -> (r: &ItemType)
        ensures
            *r == self.item_type,
    {
        &self.item_type
    }

    pub fn data_mut(&mut self) -> (r: &mut ItemType)
        ensures
            *r == old(self).item_type,
            final(self).item_type == *final(r),
            final(self).rect == old(self).rect,
            final(self).ty == old(self).ty,
    {
        &mut self.item_type
    }
}

/// What a dialog item shows.
#[derive(Clone, Debug)]
pub enum ItemType {
    Button { text: DynamicPascalString },
    Checkbox { text: DynamicPascalString },
    RadioButton { text: DynamicPascalString },
    StaticText { text: DynamicPascalString },
    EditableText { text: DynamicPascalString },
    Control { res: i16 },
    Icon { res: i16 },
    Picture { res: i16 },
    UserDefined,
    Help(HelpItem),
    Unknown { ty: u8, data: Vec<u8> },
}

/// A help item of a dialog.
#[derive(Clone, Copy, Debug, PartialEq, Eq)]
pub enum HelpItem {
    HmScanhdlg { res: i16 },
    HmScanhrct { res: i16 },
    HmScanAppendhdlg { res: i16, item: i16 },
}

/// A dialog window template.
#[derive(Clone, Debug)]
pub struct Dialog {
    pub rect: Rect,
    pub window_def_id: i16,
    pub visibility: u8,
    pub close_box_spec: u8,
    pub reference_constant: u32,
    pub item_list_id: i16,
    pub title: DynamicPascalString,
    pub position: Option<Point>,
}

/// An alert template.
#[derive(Clone, Copy, Debug, PartialEq, Eq)]
pub struct Alert {
    pub rect: Rect,
    pub item_list_res_id: u16,
    pub alert_info: u16,
    pub position: Option<Point>,
}

/// A window template.
#[derive(Clone, Debug)]
pub struct Window {
    pub rect: Rect,
    pub id: u16,
    pub visibility: u16,
    pub close_box: u16,
    pub reference: u32,
    pub title: DynamicPascalString,
}

/// A menu.
#[derive(Clone, Debug)]
pub struct Menu {
    pub id: u16,
    pub definition_res_id: u16,
    pub menu_state: u32,
    pub title: DynamicPascalString,
    pub items: Vec<MenuItem>,
}

impl Menu {
    pub fn id(&self) -> (r: u16)
        ensures
            r == self.id,
    {
        self.id
    }

    pub fn title_mut(&mut self) -> (r: &mut Vec<u8>)
        ensures
            *r == old(self).title.data,
            final(self).title.data == *final(r),
            final(self).id == old(self).id,
            final(self).menu_state == old(self).menu_state,
    {
        self.title.as_mut()
    }

    pub fn items_mut(&mut self) -> (r: &mut Vec<MenuItem>)
        ensures
            *r == old(self).items,
            final(self).items == *final(r),
            final(self).id == old(self).id,
            final(self).menu_state == old(self).menu_state,
    {
        &mut self.items
    }

    pub fn state_mut(&mut self) -> (r: &mut u32)
        ensures
            *r == old(self).menu_state,
            final(self).menu_state == *final(r),
            final(self).id == old(self).id,
    {
        &mut self.menu_state
    }

    /// The enable bits: bit 0 for the menu, bit `i` for item `i`.
    pub fn state(&self) -> (r: u32)
        ensures
            r == self.menu_state,
    {
        self.menu_state
    }

    pub fn set_state(&mut self, new: u32)
        ensures
            final(self).menu_state == new,
            final(self).id == old(self).id,
            final(self).definition_res_id == old(self).definition_res_id,
    {
        self.menu_state = new;
    }
}

/// A menu item: text, configuration and style.
#[derive(Clone, Debug)]
pub struct MenuItem {
    pub text: DynamicPascalString,
    pub cfg: MenuItemConfig,
    pub style: Style,
}

impl MenuItem {
    /// An item with empty text, no icon, shortcut or mark, in plain style.
    pub fn new() -> (r: MenuItem)
        ensures
            r.text.data@.len() == 0,
            r.text.len == 0,
            r.cfg == (MenuItemConfig::Plain { icon: None, keyboard_shortcut: None, marking_character: None }),
            r.style == Style(0),
    {
        MenuItem {
            text: DynamicPascalString { len: 0, data: Vec::new() },
            cfg: MenuItemConfig::Plain { icon: None, keyboard_shortcut: None, marking_character: None },
            style: Style(0),
        }
    }

    pub fn style(&self) -> (r: Style)
        ensures
            r == self.style,
    {
        self.style
    }

    pub fn text_mut(&mut self) -> (r: &mut Vec<u8>)
        ensures
            *r == old(self).text.data,
            final(self).text.data == *final(r),
            final(self).cfg == old(self).cfg,
            final(self).style == old(self).style,
    {
        self.text.as_mut()
    }

    pub fn cfg(&self) -> (r: MenuItemConfig)
        ensures
            r == self.cfg,
    {
        self.cfg
    }
}

/// A menu item's command-key letter.
#[derive(Clone, Copy, Debug, PartialEq, Eq, Structural)]
pub enum KeyboardShortcut {
    A,
    B,
    C,
    D,
    E,
    F,
    G,
    H,
    I,
    J,
    K,
    L,
    M,
    N,
    O,
    P,
    Q,
    R,
    S,
    T,
    U,
    V,
    W,
    X,
    Y,
    Z,
}

impl KeyboardShortcut {
    /// The letter's character code.
    pub open spec fn spec_code(self) -> u8 {
        match self {
            KeyboardShortcut::A => 65,
            KeyboardShortcut::B => 66,
            KeyboardShortcut::C => 67,
            KeyboardShortcut::D => 68,
            KeyboardShortcut::E => 69,
            KeyboardShortcut::F => 70,
            KeyboardShortcut::G => 71,
            KeyboardShortcut::H => 72,
            KeyboardShortcut::I => 73,
            KeyboardShortcut::J => 74,
            KeyboardShortcut::K => 75,
            KeyboardShortcut::L => 76,
            KeyboardShortcut::M => 77,
            KeyboardShortcut::N => 78,
            KeyboardShortcut::O => 79,
            KeyboardShortcut::P => 80,
            KeyboardShortcut::Q => 81,
            KeyboardShortcut::R => 82,
            KeyboardShortcut::S => 83,
            KeyboardShortcut::T => 84,
            KeyboardShortcut::U => 85,
            KeyboardShortcut::V => 86,
            KeyboardShortcut::W => 87,
            KeyboardShortcut::X => 88,
            KeyboardShortcut::Y => 89,
            KeyboardShortcut::Z => 90,
        }
    }

    /// The character code of the letter.
    pub fn to_u8(self) -> (r: u8)
        ensures
            r == self.spec_code(),
            0x41 <= r <= 0x5a,
    {
        match self {
            KeyboardShortcut::A => 65,
            KeyboardShortcut::B => 66,
            KeyboardShortcut::C => 67,
            KeyboardShortcut::D => 68,
            KeyboardShortcut::E => 69,
            KeyboardShortcut::F => 70,
            KeyboardShortcut::G => 71,
            KeyboardShortcut::H => 72,
            KeyboardShortcut::I => 73,
            KeyboardShortcut::J => 74,
            KeyboardShortcut::K => 75,
            KeyboardShortcut::L => 76,
            KeyboardShortcut::M => 77,
            KeyboardShortcut::N => 78,
            KeyboardShortcut::O => 79,
            KeyboardShortcut::P => 80,
            KeyboardShortcut::Q => 81,
            KeyboardShortcut::R => 82,
            KeyboardShortcut::S => 83,
            KeyboardShortcut::T => 84,
            KeyboardShortcut::U => 85,
            KeyboardShortcut::V => 86,
            KeyboardShortcut::W => 87,
            KeyboardShortcut::X => 88,
            KeyboardShortcut::Y => 89,
            KeyboardShortcut::Z => 90,
        }
    }

    /// The letter with character code `v`, if `v` is an upper-case letter.
    pub fn from_repr(v: u8) -> (r: Option<KeyboardShortcut>)
        ensures
            r is Some <==> 0x41 <= v <= 0x5a,
            r matches Some(k) ==> k.spec_code() == v,
    {
        if v == 65 {
            Some(KeyboardShortcut::A)
        } else if v == 66 {
            Some(KeyboardShortcut::B)
        } else if v == 67 {
            Some(KeyboardShortcut::C)
        } else if v == 68 {
            Some(KeyboardShortcut::D)
        } else if v == 69 {
            Some(KeyboardShortcut::E)
        } else if v == 70 {
            Some(KeyboardShortcut::F)
        } else if v == 71 {
            Some(KeyboardShortcut::G)
        } else if v == 72 {
            Some(KeyboardShortcut::H)
        } else if v == 73 {
            Some(KeyboardShortcut::I)
        } else if v == 74 {
            Some(KeyboardShortcut::J)
        } else if v == 75 {
            Some(KeyboardShortcut::K)
        } else if v == 76 {
            Some(KeyboardShortcut::L)
        } else if v == 77 {
            Some(KeyboardShortcut::M)
        } else if v == 78 {
            Some(KeyboardShortcut::N)
        } else if v == 79 {
            Some(KeyboardShortcut::O)
        } else if v == 80 {
            Some(KeyboardShortcut::P)
        } else if v == 81 {
            Some(KeyboardShortcut::Q)
        } else if v == 82 {
            Some(KeyboardShortcut::R)
        } else if v == 83 {
            Some(KeyboardShortcut::S)
        } else if v == 84 {
            Some(KeyboardShortcut::T)
        } else if v == 85 {
            Some(KeyboardShortcut::U)
        } else if v == 86 {
            Some(KeyboardShortcut::V)
        } else if v == 87 {
            Some(KeyboardShortcut::W)
        } else if v == 88 {
            Some(KeyboardShortcut::X)
        } else if v == 89 {
            Some(KeyboardShortcut::Y)
        } else if v == 90 {
            Some(KeyboardShortcut::Z)
        } else {
            None
        }
    }
}

/// The three configuration bytes of a menu item, by kind. Icons and script
/// codes are non-zero.
#[derive(Clone, Copy, Debug, PartialEq, Eq)]
pub enum MenuItemConfig {
    Plain { icon: Option<u8>, keyboard_shortcut: Option<KeyboardShortcut>, marking_character: Option<MarkingCharacter> },
    ScriptCode { code: u8, marking_character: Option<MarkingCharacter> },
    ReducedIcon { icon: u8, marking_character: Option<MarkingCharacter> },
    SicnIcon { icon: u8, marking_character: Option<MarkingCharacter> },
    Submenu { icon: Option<u8>, submenu_id: u8 },
}

/// The mark of a mark byte: none for 0, a check mark for 0x12.
pub open spec fn mark_of(v: u8) -> Option<MarkingCharacter> {
    if v == 0 {
        None
    } else if v == 0x12 {
        Some(MarkingCharacter::Checkmark)
    } else {
        Some(MarkingCharacter::Other(v))
    }
}

impl MenuItemConfig {
    /// Decodes the icon, shortcut and mark bytes of a menu item. Shortcut
    /// bytes 0x1b to 0x1e select a submenu, a script code, a reduced icon
    /// or a small icon; a submenu needs no icon, the others need one.
    pub fn parse(bytes: [u8; 3]) -> (r: MenuItemConfig)
        ensures
            bytes[1] == 0x1b ==> r == (MenuItemConfig::Submenu {
                icon: if bytes[0] == 0 { None } else { Some(bytes[0]) },
                submenu_id: bytes[2],
            }),
            bytes[0] != 0 && bytes[1] == 0x1c ==> r == (MenuItemConfig::ScriptCode { code: bytes[0], marking_character: mark_of(bytes[2]) }),
            bytes[0] != 0 && bytes[1] == 0x1d ==> r == (MenuItemConfig::ReducedIcon { icon: bytes[0], marking_character: mark_of(bytes[2]) }),
            bytes[0] != 0 && bytes[1] == 0x1e ==> r == (MenuItemConfig::SicnIcon { icon: bytes[0], marking_character: mark_of(bytes[2]) }),
            !(0x1b <= bytes[1] <= 0x1e) || (bytes[0] == 0 && bytes[1] != 0x1b) ==> {
                &&& r is Plain
                &&& r->Plain_icon == (if bytes[0] == 0 { None } else { Some(bytes[0]) })
                &&& (r->Plain_keyboard_shortcut is Some <==> 0x41 <= bytes[1] <= 0x5a)
                &&& (r->Plain_keyboard_shortcut matches Some(k) ==> k.spec_code() == bytes[1])
                &&& r->Plain_marking_character == mark_of(bytes[2])
            },
    {
        let icon = bytes[0];
        let kind = bytes[1];
        let mark = MarkingCharacter::new(bytes[2]);
        if kind == 0x1b {
            MenuItemConfig::Submenu { icon: if icon == 0 { None } else { Some(icon) }, submenu_id: bytes[2] }
        } else if icon != 0 && kind == 0x1c {
            MenuItemConfig::ScriptCode { code: icon, marking_character: mark }
        } else if icon != 0 && kind == 0x1d {
            MenuItemConfig::ReducedIcon { icon, marking_character: mark }
        } else if icon != 0 && kind == 0x1e {
            MenuItemConfig::SicnIcon { icon, marking_character: mark }
        } else {
            MenuItemConfig::Plain {
                icon: if icon == 0 { None } else { Some(icon) },
                keyboard_shortcut: KeyboardShortcut::from_repr(kind),
                marking_character: mark,
            }
        }
    }
}

/// The mark shown beside a menu item.
#[derive(Clone, Copy, Debug, PartialEq, Eq, Structural)]
pub enum MarkingCharacter {
    Checkmark,
    FullDiamond,
    EmptyDiamond,
    Other(u8),
}

impl MarkingCharacter {
    /// The mark of a mark byte: none for 0, a check mark for 0x12.
    pub fn new(v: u8) -> (r: Option<MarkingCharacter>)
        ensures
            v == 0 ==> r is None,
            v == 0x12 ==> r == Some(MarkingCharacter::Checkmark),
            v != 0 && v != 0x12 ==> r == Some(MarkingCharacter::Other(v)),
    {
        if v == 0 {
            None
        } else if v == 0x12 {
            Some(MarkingCharacter::Checkmark)
        } else {
            Some(MarkingCharacter::Other(v))
        }
    }

    /// The mark byte. The diamonds have none.
    pub fn to_u8(self) -> (r: u8)
        requires
            self is Checkmark || self is Other,
        ensures
            self is Checkmark ==> r == 0x12,
            self matches MarkingCharacter::Other(v) ==> r == v,
    {
        match self {
            MarkingCharacter::Other(v) => v,
            _ => 0x12,
        }
    }
}

/// A ROM resource override list.
#[derive(Clone, Debug)]
pub struct RomOverride {
    pub version: u16,
    pub number: u16,
    pub override_types: Vec<u32>,
    pub override_ids: Vec<u16>,
}

/// The memory requirements of an application.
#[derive(Clone, Copy, Debug, PartialEq, Eq)]
pub struct Size {
    pub flags: u16,
    pub preferred: u32,
    pub minimum: u32,
}

impl Size {
    pub fn flags(&self) -> (r: u16)
        ensures
            r == self.flags,
    {
        self.flags
    }

    pub fn minimum(&self) -> (r: u32)
        ensures
            r == self.minimum,
    {
        self.minimum
    }

    pub fn preferred(&self) -> (r: u32)
        ensures
            r == self.preferred,
    {
        self.preferred
    }

    pub fn minimum_mut(&mut self) -> (r: &mut u32)
        ensures
            *r == old(self).minimum,
            final(self).minimum == *final(r),
            final(self).preferred == old(self).preferred,
            final(self).flags == old(self).flags,
    {
        &mut self.minimum
    }

    pub fn preferred_mut(&mut self) -> (r: &mut u32)
        ensures
            *r == old(self).preferred,
            final(self).preferred == *final(r),
            final(self).minimum == old(self).minimum,
            final(self).flags == old(self).flags,
    {
        &mut self.preferred
    }
}

/// What an MFS folder record describes.
#[derive(Clone, Copy, Debug, PartialEq, Eq, Structural)]
pub enum MfsFolderType {
    Disk,
    Folder,
}

/// The Finder's record of a folder on an MFS volume.
#[derive(Clone, Copy, Debug, PartialEq, Eq)]
pub struct MfsFolder {
    pub ty: MfsFolderType,
    pub icon_pos: Point,
    pub view: u8,
    pub parent: i16,
}

} // verus!
