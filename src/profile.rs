//! The registry of named conversion profiles and the tables they are built
//! from.
use vstd::prelude::*;
use crate::text::chars_of;

verus! {

/// Simplified to Traditional (OpenCC standard): phrases, then characters.
pub const ST_TABLE: &'static str = "头发\t頭髮
发展\t發展
开放\t開放
皇后\t皇后
干燥\t乾燥
开\t開
转\t轉
换\t換
掷\t擲
发\t發 髮
后\t後
干\t幹 乾
体\t體
软\t軟
网\t網
络\t絡
电\t電
脑\t腦
说\t說
话\t話
语\t語
门\t門
们\t們
学\t學
会\t會
这\t這
个\t個
来\t來
对\t對
时\t時
东\t東
车\t車
国\t國
里\t裏
为\t爲
汉\t漢
";

/// Traditional (OpenCC standard) to Simplified: phrases, then characters.
pub const TS_TABLE: &'static str = "乾坤\t乾坤
乾隆\t乾隆
頭髮\t头发
開\t开
轉\t转
換\t换
擲\t掷
發\t发
髮\t发
後\t后
幹\t干
乾\t干
體\t体
軟\t软
網\t网
絡\t络
電\t电
腦\t脑
說\t说
話\t话
語\t语
門\t门
們\t们
學\t学
會\t会
這\t这
個\t个
來\t来
對\t对
時\t时
東\t东
車\t车
國\t国
裏\t里
裡\t里
爲\t为
為\t为
漢\t汉
";

/// OpenCC standard to Taiwan standard character variants.
pub const TW_VARIANTS_TABLE: &'static str = "裏\t裡
爲\t為
衆\t眾
";

/// Taiwan standard to OpenCC standard character variants.
pub const TW_VARIANTS_REV_TABLE: &'static str = "裡\t裏
為\t爲
眾\t衆
";

/// OpenCC standard to Hong Kong standard character variants.
pub const HK_VARIANTS_TABLE: &'static str = "爲\t為
衆\t眾
着\t著
";

/// Hong Kong standard to OpenCC standard character variants.
pub const HK_VARIANTS_REV_TABLE: &'static str = "為\t爲
眾\t衆
著\t着
";

/// Mainland idioms to Taiwanese idioms, on Traditional text.
pub const TW_PHRASES_TABLE: &'static str = "軟件\t軟體
網絡\t網路
信息\t資訊
";

/// Taiwanese idioms to Mainland idioms, on Traditional text.
pub const TW_PHRASES_REV_TABLE: &'static str = "軟體\t軟件
網路\t網絡
資訊\t信息
";

/// The bundled tables.
#[derive(Debug, Clone, Copy, PartialEq, Eq, Structural)]
pub enum Table {
    St,
    Ts,
    TwVariants,
    TwVariantsRev,
    HkVariants,
    HkVariantsRev,
    TwPhrases,
    TwPhrasesRev,
}

/// The text of each bundled table.
pub open spec fn table_text(t: Table) -> Seq<char> {
    match t {
        Table::St => ST_TABLE@,
        Table::Ts => TS_TABLE@,
        Table::TwVariants => TW_VARIANTS_TABLE@,
        Table::TwVariantsRev => TW_VARIANTS_REV_TABLE@,
        Table::HkVariants => HK_VARIANTS_TABLE@,
        Table::HkVariantsRev => HK_VARIANTS_REV_TABLE@,
        Table::TwPhrases => TW_PHRASES_TABLE@,
        Table::TwPhrasesRev => TW_PHRASES_REV_TABLE@,
    }
}

/// The text of bundled table `t`.
pub fn table_source(t: Table) -> (r: &'static str)
    ensures
        r@ == table_text(t),
{
    match t {
        Table::St => ST_TABLE,
        Table::Ts => TS_TABLE,
        Table::TwVariants => TW_VARIANTS_TABLE,
        Table::TwVariantsRev => TW_VARIANTS_REV_TABLE,
        Table::HkVariants => HK_VARIANTS_TABLE,
        Table::HkVariantsRev => HK_VARIANTS_REV_TABLE,
        Table::TwPhrases => TW_PHRASES_TABLE,
        Table::TwPhrasesRev => TW_PHRASES_REV_TABLE,
    }
}

/// The standard conversion profiles.
#[derive(Debug, Clone, Copy, PartialEq, Eq, Structural)]
pub enum Profile {
    /// Simplified to Traditional.
    S2t,
    /// Traditional to Simplified.
    T2s,
    /// Simplified to Traditional (Taiwan standard).
    S2tw,
    /// Traditional (Taiwan standard) to Simplified.
    Tw2s,
    /// Simplified to Traditional (Hong Kong standard).
    S2hk,
    /// Traditional (Hong Kong standard) to Simplified.
    Hk2s,
    /// Simplified to Traditional (Taiwan standard) with Taiwanese idioms.
    S2twp,
    /// Traditional (Taiwan standard) to Simplified with Mainland idioms.
    Tw2sp,
    /// Traditional (OpenCC standard) to Taiwan standard.
    T2tw,
    /// Traditional (OpenCC standard) to Hong Kong standard.
    T2hk,
}

/// The profile registered under `name`.
pub open spec fn profile_named(name: Seq<char>) -> Option<Profile> {
    if name == "s2t.json"@ {
        Some(Profile::S2t)
    } else if name == "t2s.json"@ {
        Some(Profile::T2s)
    } else if name == "s2tw.json"@ {
        Some(Profile::S2tw)
    } else if name == "tw2s.json"@ {
        Some(Profile::Tw2s)
    } else if name == "s2hk.json"@ {
        Some(Profile::S2hk)
    } else if name == "hk2s.json"@ {
        Some(Profile::Hk2s)
    } else if name == "s2twp.json"@ {
        Some(Profile::S2twp)
    } else if name == "tw2sp.json"@ {
        Some(Profile::Tw2sp)
    } else if name == "t2tw.json"@ {
        Some(Profile::T2tw)
    } else if name == "t2hk.json"@ {
        Some(Profile::T2hk)
    } else {
        None
    }
}

/// The tables of each profile, in the order in which their passes run.
pub open spec fn profile_tables(p: Profile) -> Seq<Table> {
    match p {
        Profile::S2t => seq![Table::St],
        Profile::T2s => seq![Table::Ts],
        Profile::S2tw => seq![Table::St, Table::TwVariants],
        Profile::Tw2s => seq![Table::TwVariantsRev, Table::Ts],
        Profile::S2hk => seq![Table::St, Table::HkVariants],
        Profile::Hk2s => seq![Table::HkVariantsRev, Table::Ts],
        Profile::S2twp => seq![Table::St, Table::TwPhrases, Table::TwVariants],
        Profile::Tw2sp => seq![Table::TwPhrasesRev, Table::TwVariantsRev, Table::Ts],
        Profile::T2tw => seq![Table::TwVariants],
        Profile::T2hk => seq![Table::HkVariants],
    }
}

/// `a` and `b` hold the same characters.
fn same_chars(a: &[char], b: &[char]) -> (r: bool)
    ensures
        r == (a@ == b@),
{
    if a.len() != b.len() {
        return false;
    }
    let mut i: usize = 0;
    while i < a.len()
        invariant
            i <= a@.len(),
            a@.len() == b@.len(),
            forall|j: int| 0 <= j < i ==> a@[j] == b@[j],
        decreases a@.len() - i,
    {
        if a[i] != b[i] {
            return false;
        }
        i = i + 1;
    }
    assert(a@ =~= b@);
    true
}

/// `name` equals `known`.
fn is_named(name: &[char], known: &str) -> (r: bool)
    ensures
        r == (name@ == known@),
{
    let k = chars_of(known);
    same_chars(name, k.as_slice())
}

/// The profile registered under `name`, if any.
pub fn resolve(name: &str) -> (r: Option<Profile>)
    ensures
        r == profile_named(name@),
{
    let n = chars_of(name);
    let n = n.as_slice();
    if is_named(n, "s2t.json") {
        Some(Profile::S2t)
    } else if is_named(n, "t2s.json") {
        Some(Profile::T2s)
    } else if is_named(n, "s2tw.json") {
        Some(Profile::S2tw)
    } else if is_named(n, "tw2s.json") {
        Some(Profile::Tw2s)
    } else if is_named(n, "s2hk.json") {
        Some(Profile::S2hk)
    } else if is_named(n, "hk2s.json") {
        Some(Profile::Hk2s)
    } else if is_named(n, "s2twp.json") {
        Some(Profile::S2twp)
    } else if is_named(n, "tw2sp.json") {
        Some(Profile::Tw2sp)
    } else if is_named(n, "t2tw.json") {
        Some(Profile::T2tw)
    } else if is_named(n, "t2hk.json") {
        Some(Profile::T2hk)
    } else {
        None
    }
}

/// The tables of profile `p`, in pass order.
pub fn tables_of(p: Profile) -> (r: Vec<Table>)
    ensures
        r@ == profile_tables(p),
{
    let r = match p {
        Profile::S2t => vec![Table::St],
        Profile::T2s => vec![Table::Ts],
        Profile::S2tw => vec![Table::St, Table::TwVariants],
        Profile::Tw2s => vec![Table::TwVariantsRev, Table::Ts],
        Profile::S2hk => vec![Table::St, Table::HkVariants],
        Profile::Hk2s => vec![Table::HkVariantsRev, Table::Ts],
        Profile::S2twp => vec![Table::St, Table::TwPhrases, Table::TwVariants],
        Profile::Tw2sp => vec![Table::TwPhrasesRev, Table::TwVariantsRev, Table::Ts],
        Profile::T2tw => vec![Table::TwVariants],
        Profile::T2hk => vec![Table::HkVariants],
    };
    assert(r@ =~= profile_tables(p));
    r
}

} // verus!
