//! The powers that show the order of the groups to be prime.
//!
//! The order is `u^4 - u^2 + 1` for a number `u` of 64 bits. An element of order
//! `2^46` modulo `u` shows that `u` is prime, and an element of order `u^2` modulo
//! the order of the groups then shows that the latter is.

use crate::modular::{
    congruent, lemma_congruent_add, lemma_congruent_mul, lemma_modulus_bounds, lemma_small,
    modulus, power,
};
use crate::prime::{
    all_invertible, lemma_doubled, lemma_first_power, lemma_next, lemma_prime_by_square,
    lemma_prime_by_two_power, lemma_residue_inverse, same_mod,
};
use vstd::arithmetic::power2::lemma2_to64_rest;
use vstd::prelude::*;

verus! {

/// The number that the order of the groups is computed from.
spec fn parameter() -> int {
    0x8508c00000000001int
}

/// An element of order `2^46` modulo the parameter.
spec fn small_element() -> int {
    0x5652d2b203d2e20int
}

/// An element whose order modulo the order of the groups is the square of the
/// parameter.
spec fn large_element() -> int {
    0xf8aa9ed63c4db4f7dad922736dd1b6ba3a23528904492032443dd2ae2ca659dint
}

/// The power of that element by the parameter.
spec fn large_element_power() -> int {
    0x21afc6a74df0884afb89d5eb9e49be9c000625e91eae38db72cfe2421e53af0int
}

/// The inverse of that power less one.
spec fn inverse_of_difference() -> int {
    0x102cac4aa17e63e458adf83dbe8d54189cf480a99bb7c4c5e5d1895b7a598217int
}

/// Every number but the multiples of the order of the groups has an inverse.
pub proof fn lemma_has_inverse(a: int) -> (inverse: int)
    requires
        a % modulus() != 0,
    ensures
        congruent(inverse * a, 1),
{
    lemma_modulus_invertible();
    let y = lemma_residue_inverse(modulus(), a);
    assert(a * y == y * a) by (nonlinear_arith);
    reveal(same_mod);
    lemma_modulus_bounds();
    lemma_small(0);
    lemma_congruent_add(y * a - 1, 0, 1, 1);
    y
}

/// A product that vanishes has a factor that does.
pub proof fn lemma_divide(a: int, b: int)
    requires
        a % modulus() != 0,
        congruent(a * b, 0),
    ensures
        congruent(b, 0),
{
    let inverse = lemma_has_inverse(a);
    lemma_congruent_mul(inverse, inverse, a * b, 0);
    lemma_congruent_mul(inverse * a, 1, b, b);
    assert(inverse * (a * b) == (inverse * a) * b) by (nonlinear_arith);
    assert(inverse * 0 == 0);
}

/// No power of a number is a multiple of the order of the groups, unless the
/// number is.
pub proof fn lemma_power_not_zero(base: int, exponent: nat)
    requires
        base % modulus() != 0,
    ensures
        power(base, exponent) % modulus() != 0,
    decreases exponent,
{
    lemma_modulus_bounds();
    lemma_small(0);
    lemma_small(1);
    if exponent > 0 {
        let rest = (exponent - 1) as nat;
        lemma_power_not_zero(base, rest);
        if congruent(base * power(base, rest), 0) {
            lemma_divide(base, power(base, rest));
        }
    }
}

proof fn lemma_modulus_invertible()
    ensures
        all_invertible(modulus()),
{
    reveal(modulus);
    let u = parameter() as nat;
    let n = modulus();
    assert((u * u) * (u * u) > n) by (nonlinear_arith)
        requires
            u == 0x8508c00000000001int,
            n == 0x12ab655e9a2ca55660b44d1e5c37b00159aa76fed00000010a11800000000001int,
    ;
    lemma_parameter_invertible();
    lemma_large_element_power();
    lemma_large_element_order();
    lemma_prime_by_square(
        modulus(),
        large_element(),
        u,
        large_element_power(),
        inverse_of_difference(),
    );
}

proof fn lemma_parameter_invertible()
    ensures
        all_invertible(parameter()),
{
    lemma_small_element_power();
    lemma2_to64_rest();
    let (n, half) = (parameter(), 0x200000000000nat);
    assert((2 * half) * (2 * half) > n) by (nonlinear_arith)
        requires
            half == 0x200000000000,
            n == 0x8508c00000000001int,
    ;
    lemma_prime_by_two_power(n, small_element(), half, 45);
}

proof fn lemma_small_element_power()
    ensures
        same_mod(parameter(), power(small_element(), 0x200000000000), parameter() - 1),
{
    let (n, h) = (parameter(), small_element());
    lemma_first_power(n, h);
    let x1: int = 0x4104155de611e6e0int;
    lemma_doubled(n, h, 1, h, x1);
    let x2: int = 0x7a7daf65e624b487int;
    lemma_doubled(n, h, 2, x1, x2);
    let x3: int = 0x6beb76138551f6cint;
    lemma_doubled(n, h, 4, x2, x3);
    let x4: int = 0x26d245fdafb8aa23int;
    lemma_doubled(n, h, 8, x3, x4);
    let x5: int = 0x7b1d01a461e14b09int;
    lemma_doubled(n, h, 16, x4, x5);
    let x6: int = 0x53868d5cb8c8c667int;
    lemma_doubled(n, h, 32, x5, x6);
    let x7: int = 0x118d3e25b226302dint;
    lemma_doubled(n, h, 64, x6, x7);
    let x8: int = 0x711bc9f9510f5ab6int;
    lemma_doubled(n, h, 128, x7, x8);
    let x9: int = 0xb8d63110935f63bint;
    lemma_doubled(n, h, 256, x8, x9);
    let x10: int = 0x19115cfc1e7e9d9dint;
    lemma_doubled(n, h, 512, x9, x10);
    let x11: int = 0x57d494f94bebb342int;
    lemma_doubled(n, h, 1024, x10, x11);
    let x12: int = 0x67aaf2ec9878162aint;
    lemma_doubled(n, h, 2048, x11, x12);
    let x13: int = 0x30d5b1107b263fe3int;
    lemma_doubled(n, h, 4096, x12, x13);
    let x14: int = 0x82427d5e32cb9eb9int;
    lemma_doubled(n, h, 8192, x13, x14);
    let x15: int = 0x3bd0db0d2b2aa83fint;
    lemma_doubled(n, h, 16384, x14, x15);
    let x16: int = 0x5ba1a6ca9592987fint;
    lemma_doubled(n, h, 32768, x15, x16);
    let x17: int = 0x74aee4fb80234db2int;
    lemma_doubled(n, h, 65536, x16, x17);
    let x18: int = 0x56daf9be8662acd9int;
    lemma_doubled(n, h, 131072, x17, x18);
    let x19: int = 0x55b060fbfcb0be85int;
    lemma_doubled(n, h, 262144, x18, x19);
    let x20: int = 0x41830ae8ef7900a2int;
    lemma_doubled(n, h, 524288, x19, x20);
    let x21: int = 0x1d9b2952ed9702f0int;
    lemma_doubled(n, h, 1048576, x20, x21);
    let x22: int = 0x41e781cf111b05feint;
    lemma_doubled(n, h, 2097152, x21, x22);
    let x23: int = 0xd73bba23203a55eint;
    lemma_doubled(n, h, 4194304, x22, x23);
    let x24: int = 0x715912e20ec2d043int;
    lemma_doubled(n, h, 8388608, x23, x24);
    let x25: int = 0x70819baff916472eint;
    lemma_doubled(n, h, 16777216, x24, x25);
    let x26: int = 0x3e4d804b2d75909eint;
    lemma_doubled(n, h, 33554432, x25, x26);
    let x27: int = 0x267189b85d8511f9int;
    lemma_doubled(n, h, 67108864, x26, x27);
    let x28: int = 0x1fdad7a5c9e43f37int;
    lemma_doubled(n, h, 134217728, x27, x28);
    let x29: int = 0x2eebab33184db05cint;
    lemma_doubled(n, h, 268435456, x28, x29);
    let x30: int = 0x1a109e95d614ab8fint;
    lemma_doubled(n, h, 536870912, x29, x30);
    let x31: int = 0x81ab312b65fd7066int;
    lemma_doubled(n, h, 1073741824, x30, x31);
    let x32: int = 0x66f915e2aacce229int;
    lemma_doubled(n, h, 2147483648, x31, x32);
    let x33: int = 0x844a9c1a8945bfcint;
    lemma_doubled(n, h, 4294967296, x32, x33);
    let x34: int = 0x1eeb2b2544eb6d23int;
    lemma_doubled(n, h, 8589934592, x33, x34);
    let x35: int = 0x6a0de5ccc00fed9cint;
    lemma_doubled(n, h, 17179869184, x34, x35);
    let x36: int = 0x65b0254fb521ca5bint;
    lemma_doubled(n, h, 34359738368, x35, x36);
    let x37: int = 0x10422911df3972e7int;
    lemma_doubled(n, h, 68719476736, x36, x37);
    let x38: int = 0xde4b8bdc05ce4ddint;
    lemma_doubled(n, h, 137438953472, x37, x38);
    let x39: int = 0x3c8c64f50c9c819aint;
    lemma_doubled(n, h, 274877906944, x38, x39);
    let x40: int = 0x1c8d29d3c319020aint;
    lemma_doubled(n, h, 549755813888, x39, x40);
    let x41: int = 0x3539c001cf1c5d0dint;
    lemma_doubled(n, h, 1099511627776, x40, x41);
    let x42: int = 0x3611d6877120a7d4int;
    lemma_doubled(n, h, 2199023255552, x41, x42);
    let x43: int = 0x22b17d01863a8538int;
    lemma_doubled(n, h, 4398046511104, x42, x43);
    let x44: int = 0x46a622ad0db4840fint;
    lemma_doubled(n, h, 8796093022208, x43, x44);
    let x45: int = 0x8508c00000000000int;
    lemma_doubled(n, h, 17592186044416, x44, x45);
}

proof fn lemma_large_element_power()
    ensures
        same_mod(modulus(), power(large_element(), parameter() as nat), large_element_power()),
{
    reveal(modulus);
    let (n, g) = (modulus(), large_element());
    lemma_first_power(n, g);
    let x1: int = 0xeb4eec7195bf3d7a9370f9757d7e108dc6dbcb0b4745e269295122f1bace38fint;
    lemma_doubled(n, g, 1, g, x1);
    let x2: int = 0xd37d519dbae741ed84c2a1a607b382d6b00cf01750f5accc208cbd043aaa2f3int;
    lemma_doubled(n, g, 2, x1, x2);
    let x3: int = 0x71592b5ec36d2e2a51c618a10fc4db1c3f8ce863b2dc2ef8dcf47ec76a81a0bint;
    lemma_doubled(n, g, 4, x2, x3);
    let x4: int = 0x126fb3faff98373c6923af51343028debe426dea0ef13aa3a8204f14949089e4int;
    lemma_doubled(n, g, 8, x3, x4);
    let x5: int = 0xdb1c8948ebbe53df1518de392a9ca1e3ca7cac31afeb1b0340b220fcca16153int;
    lemma_doubled(n, g, 16, x4, x5);
    let x6: int = 0x6511a3aeb8c37588557539feec080f495660f58333e851221cb63d368fff094int;
    lemma_next(n, g, 32, x5, x6);
    let x7: int = 0xf1492c074e83925517c5ef7be5a4440354417b64b0685339534c778c1d804b5int;
    lemma_doubled(n, g, 33, x6, x7);
    let x8: int = 0x28e0cde0975d049e260ee0fc9daaafe82df9e52df520a83cf5b16d9972e2c53int;
    lemma_doubled(n, g, 66, x7, x8);
    let x9: int = 0x9ba84901e1e49088e7dfd49a985f662128cb6ae6d35e150b4de2ca02c28749eint;
    lemma_next(n, g, 132, x8, x9);
    let x10: int = 0x1264d34aa6b16876e79dcd2068d327cdff892109886dae6e919c3c51f3707b12int;
    lemma_doubled(n, g, 133, x9, x10);
    let x11: int = 0x10de7794089e6443d68c76bca5d2e402b33a8d23c3377c80d66cd6f230d56480int;
    lemma_doubled(n, g, 266, x10, x11);
    let x12: int = 0x4379f15867fff4917200dc0bae1534fc74d74102bfaabed2c99300c1356620aint;
    lemma_doubled(n, g, 532, x11, x12);
    let x13: int = 0x124fb14e06554536a0c9caf58b2fe65753af4342165b631dd3348d25f1809c57int;
    lemma_doubled(n, g, 1064, x12, x13);
    let x14: int = 0x10486c57b85af005b18c0980397c349e56632eb7979d9c2e81c792ac18c996d1int;
    lemma_doubled(n, g, 2128, x13, x14);
    let x15: int = 0x12a59dafacaca83d02416e2c1d02dc668acb2301ce70ebf22d0826b7f7706e0int;
    lemma_next(n, g, 4256, x14, x15);
    let x16: int = 0x8696f3c500d2f7bcefc35b10fc880540a50ecf6f19ddb3c3a56b5d6b1a2b0e5int;
    lemma_doubled(n, g, 4257, x15, x16);
    let x17: int = 0xd3f18f83dcbee5a4482440a332c1557a98227c1d9f4c907a880a09068af9ffcint;
    lemma_doubled(n, g, 8514, x16, x17);
    let x18: int = 0x5b18d8b0e6c103a546024e29d63e8af5bae18eff5453d079f8a9bff5a7f4124int;
    lemma_doubled(n, g, 17028, x17, x18);
    let x19: int = 0x228576f72e26354d7287d00d1e1020b5ee440d6ba468541d62ceee5caf9e9bdint;
    lemma_doubled(n, g, 34056, x18, x19);
    let x20: int = 0x12430e33a5b314ccb14d4912ba7e71d5d79e9c73e9f4f4e04454bf3a91119003int;
    lemma_next(n, g, 68112, x19, x20);
    let x21: int = 0x235c6f7f1acb1c62ad739357d6caaf1aa9d5a054103ba5440817a611e3f6be5int;
    lemma_doubled(n, g, 68113, x20, x21);
    let x22: int = 0x1774f681285931b3926df7453193200d8fc790c43e16e9d789905e62315509int;
    lemma_next(n, g, 136226, x21, x22);
    let x23: int = 0x1060f39ef448a6ecd77de251be6def57ac575eb45681f236b053dc9da0ea0a3aint;
    lemma_doubled(n, g, 136227, x22, x23);
    let x24: int = 0x74572d094dbb2e65f9b76f8f0883978ec45d6c742754adfcdea4119430ccfb7int;
    lemma_doubled(n, g, 272454, x23, x24);
    let x25: int = 0xd99b7283d07681a590563920e8ba961fb8847fdb3c5277b7725a5cada245c12int;
    lemma_doubled(n, g, 544908, x24, x25);
    let x26: int = 0x12e98e919d4bb3e7243cb527c7e46282b3e3d687cd5149a5fedc166da400efcint;
    lemma_doubled(n, g, 1089816, x25, x26);
    let x27: int = 0x943ca8ea856467a0859c09d0f8fbd11c979fa9ab4da3323349dd16e07ac3a7cint;
    lemma_doubled(n, g, 2179632, x26, x27);
    let x28: int = 0xe48912fcf83de0e0dfbf6c42021fc5249a899e8e5d2b86b726bffdb1c751287int;
    lemma_doubled(n, g, 4359264, x27, x28);
    let x29: int = 0xe5c17cd55653525f0b0186102a07225d555341e4608888ad792646d8e790d3int;
    lemma_doubled(n, g, 8718528, x28, x29);
    let x30: int = 0x5432c0cda978d1ab757cb6ef9425d329ec988a64e84368e66eb6e2c966cc4c6int;
    lemma_doubled(n, g, 17437056, x29, x30);
    let x31: int = 0x2e17c5f6f46dbd2449fee1e1fbcb71d994ef5d3ea48ea63f2c3b96f0ddb5e85int;
    lemma_doubled(n, g, 34874112, x30, x31);
    let x32: int = 0x123fbbba5f470f9da92d07df0f106c7afffad73b03f0d703eb332f90b5c71129int;
    lemma_doubled(n, g, 69748224, x31, x32);
    let x33: int = 0xc7ca0b155e9e93af96be5e13ebcfb7acba8261153cf730e7969ee253b73487dint;
    lemma_doubled(n, g, 139496448, x32, x33);
    let x34: int = 0x1be6e72430400866e03c4d1581a32f818be5228e898aae0261a47b383fce19int;
    lemma_doubled(n, g, 278992896, x33, x34);
    let x35: int = 0xb17a47f169d46d875b16f7da2dc0837697d1a7202b9a340f5576dfa5aeb895dint;
    lemma_doubled(n, g, 557985792, x34, x35);
    let x36: int = 0x98759d886aedd731771842cf2ed014c85bcc50d41671d25f459dbf103fc575aint;
    lemma_doubled(n, g, 1115971584, x35, x36);
    let x37: int = 0x10c4182ea46980d98b9b9954ac4f6f9cf6f569d65154c453dde821c977d8e9d9int;
    lemma_doubled(n, g, 2231943168, x36, x37);
    let x38: int = 0xd84785ef35ec8dffa8494178d659e7b5bd1601339ba32698a97c75d5c31c9a4int;
    lemma_doubled(n, g, 4463886336, x37, x38);
    let x39: int = 0xa89e92c0a122e519cfe3328cd247a720fe1221e9644e654b672c63313389aa3int;
    lemma_doubled(n, g, 8927772672, x38, x39);
    let x40: int = 0x23ec729371e5ac9b39782f343138929e1a8863bb449956f5dd793729483c44fint;
    lemma_doubled(n, g, 17855545344, x39, x40);
    let x41: int = 0x529e799634f01e875f34c9a61d62bb20d2cfa1856426a0dd97acc4b15c6e5f2int;
    lemma_doubled(n, g, 35711090688, x40, x41);
    let x42: int = 0x4343f373328362a6268ae0c37d88b1a568c16a2eac43b8ea0cc196938e7d5aeint;
    lemma_doubled(n, g, 71422181376, x41, x42);
    let x43: int = 0x52732e5f4059fc0040d46e4c0476b22d02385b176af74451f04245df2ce750aint;
    lemma_doubled(n, g, 142844362752, x42, x43);
    let x44: int = 0x10b7a3d3f7bb119c7dfed65e7c168bac73d7c09eb539d4b7741ca58363e4df7aint;
    lemma_doubled(n, g, 285688725504, x43, x44);
    let x45: int = 0x1133229af904f88c2ba4a3e6b7ee257d4574629e008af2d01e9cb269a08438c8int;
    lemma_doubled(n, g, 571377451008, x44, x45);
    let x46: int = 0x3bb714f3f346bba49f392220314ecbc69b399bba04ada1465292cf2e5da6c42int;
    lemma_doubled(n, g, 1142754902016, x45, x46);
    let x47: int = 0xb5fd4a27e83afdc4cc7eebcc07ffa41dc4307b097cf68aa8726086359549a7bint;
    lemma_doubled(n, g, 2285509804032, x46, x47);
    let x48: int = 0xecf1d4c559549dcfda2aeb389746daa27c06a1d92fb2915393df0af102720f3int;
    lemma_doubled(n, g, 4571019608064, x47, x48);
    let x49: int = 0xc94a356dc357240cac320bf70e62fb502969bcb2463c98e5bae9d810d387459int;
    lemma_doubled(n, g, 9142039216128, x48, x49);
    let x50: int = 0xe29177f77ac93c3396377774d457ded75e439c08ad521da11612335ad59144int;
    lemma_doubled(n, g, 18284078432256, x49, x50);
    let x51: int = 0xfe4d1429c19ee2fa5dfe84ca95726433913e2c8e1f909ba7bb6ecd3ea3f33ebint;
    lemma_doubled(n, g, 36568156864512, x50, x51);
    let x52: int = 0x11d3d8ebd2a9c59a96c784953424dd2c55c5cafc9dbfcd91fc7d84bf13ba6b4eint;
    lemma_doubled(n, g, 73136313729024, x51, x52);
    let x53: int = 0xcc3629a78a1780f8a9200f361cb14c29f6dd2454cf98d4b38f6521b268440e9int;
    lemma_doubled(n, g, 146272627458048, x52, x53);
    let x54: int = 0x4ef90f411ec9f0b6320a818a83060269d3771a742ebb37b7704594bb9c0107bint;
    lemma_doubled(n, g, 292545254916096, x53, x54);
    let x55: int = 0x12105ae59f3bb9081c06fd79e42f6f283e8d0f8eb6a4442dabfc506f75d50dc6int;
    lemma_doubled(n, g, 585090509832192, x54, x55);
    let x56: int = 0x25d461ac084740a277df657bf40c0897b40019aaea039f95d528561ec78a94int;
    lemma_doubled(n, g, 1170181019664384, x55, x56);
    let x57: int = 0x9d518cde3090a42f561cda50f324c064e617c41f0a18e6992066df080ed0056int;
    lemma_doubled(n, g, 2340362039328768, x56, x57);
    let x58: int = 0xff79be6271ccaaac7a196fab1de602b742b34bf974f40874fc005a541dd8039int;
    lemma_doubled(n, g, 4680724078657536, x57, x58);
    let x59: int = 0x203b2460474edaf95ca5f3d0c0fad4242b28bfb48cbc6bcdd8aaca7b7d4019dint;
    lemma_doubled(n, g, 9361448157315072, x58, x59);
    let x60: int = 0x2b582a07788c147a870fd0544362e1cdfdfaf774ffd8ade69d505e02f328ac2int;
    lemma_doubled(n, g, 18722896314630144, x59, x60);
    let x61: int = 0x733639960c5b3519e39db1ed76170dbca68133ddae40283ad72b175cb3c5005int;
    lemma_doubled(n, g, 37445792629260288, x60, x61);
    let x62: int = 0x4955e6404c5bf23d6c7206d86aceca30c488213290459766774c211e516aa02int;
    lemma_doubled(n, g, 74891585258520576, x61, x62);
    let x63: int = 0xc9c25425523d6552f1308b5166a06633e6c18461baad5a0fa88221014e7cb4aint;
    lemma_doubled(n, g, 149783170517041152, x62, x63);
    let x64: int = 0xde6ce4321fcd276fb854fb4509806cd8834d459ca939d89dcad2df8f49c7f94int;
    lemma_doubled(n, g, 299566341034082304, x63, x64);
    let x65: int = 0xcdf0191fe6ca96bd233e9c5750cc51595fb2f07de68b0064dda9545a98f48aeint;
    lemma_doubled(n, g, 599132682068164608, x64, x65);
    let x66: int = 0x4bfd006835dc2040c5c46cdb92c1a1b6c115a4a1f1fbaf04f1df76f1bede5bbint;
    lemma_doubled(n, g, 1198265364136329216, x65, x66);
    let x67: int = 0x1b8608374f0fec8621f4c7a6821e751835e0d33f95c723fb167a66d7f93f5f2int;
    lemma_doubled(n, g, 2396530728272658432, x66, x67);
    let x68: int = 0x974baace2d2d14058154e6866fb8498bb146ceb42fe79a1e6a40237c63cb072int;
    lemma_doubled(n, g, 4793061456545316864, x67, x68);
    let x69: int = 0x21afc6a74df0884afb89d5eb9e49be9c000625e91eae38db72cfe2421e53af0int;
    lemma_next(n, g, 9586122913090633728, x68, x69);
}

proof fn lemma_large_element_order()
    ensures
        same_mod(modulus(), power(large_element_power(), parameter() as nat), 1),
{
    reveal(modulus);
    let (n, w) = (modulus(), large_element_power());
    lemma_first_power(n, w);
    let x1: int = 0x6988baa6a35a03b012c02b39902dcfcddb2fe250c3d5f2da60e81aee083b4a0int;
    lemma_doubled(n, w, 1, w, x1);
    let x2: int = 0x841999ee8a4b5478911d76e84be8a11c37e2ca163d6efd5b74d9f4ffcb68b26int;
    lemma_doubled(n, w, 2, x1, x2);
    let x3: int = 0xf10b9baeab98e9f84a459e8200e323e641bf6e33c751d1c64e8853ff8495cdeint;
    lemma_doubled(n, w, 4, x2, x3);
    let x4: int = 0x120ffc9eaf07ea6bb2cd12461863d2965612bb97a510bbce8c5387e3fdc4d9baint;
    lemma_doubled(n, w, 8, x3, x4);
    let x5: int = 0x5b17d1c7b8d4f06c4c880b7f7d69c12246b6d98de5d4120d05bda545d1a48bbint;
    lemma_doubled(n, w, 16, x4, x5);
    let x6: int = 0x84c7a744ae18f1b1d9959ae821efd4eebd520b0e666395fa7c1feb5b967a15eint;
    lemma_next(n, w, 32, x5, x6);
    let x7: int = 0xd88e41619b5d2bdd12e6654cc698a748e187fa468f1bf2920d7f168cdc1d36cint;
    lemma_doubled(n, w, 33, x6, x7);
    let x8: int = 0x578684188b418b5f2e61e716dde8d222317baddb22d4583455dca76548f4fb8int;
    lemma_doubled(n, w, 66, x7, x8);
    let x9: int = 0xb8e596f8873a39bceaf92d6f698a1ce7cc971d7fb3a60eb5e1cb06a354dccaaint;
    lemma_next(n, w, 132, x8, x9);
    let x10: int = 0xfb266d12b747373c2d28c4d209d28dc372beba312e7c79f5c0e02dbda225200int;
    lemma_doubled(n, w, 133, x9, x10);
    let x11: int = 0xbe86dec1537183221f6e89d6cb3c2ec35a36994005e5c7456d9b36bae3d614fint;
    lemma_doubled(n, w, 266, x10, x11);
    let x12: int = 0xd6fc0fe88b2801523e60043c5e17f6a8f135ef09f065b0fcf8aa81d924775a0int;
    lemma_doubled(n, w, 532, x11, x12);
    let x13: int = 0xbc1655fc52b033f486ba74e52264c4aed90dd30d4d4d800dbaeaa78e46f4f0int;
    lemma_doubled(n, w, 1064, x12, x13);
    let x14: int = 0x101649c795091a806a289f1bf8bc5bbe1e20bf8d6be69096f3fd0196732944e9int;
    lemma_doubled(n, w, 2128, x13, x14);
    let x15: int = 0x9702dcca5e3aa243b56c63b6949c279c683ba950df7ee42b3d756573e8b8608int;
    lemma_next(n, w, 4256, x14, x15);
    let x16: int = 0x30fae058e3b486927591cde87b892b7dd13d922d02fe59026500a31214d8d84int;
    lemma_doubled(n, w, 4257, x15, x16);
    let x17: int = 0xb7619e6224656570b7d06691f0da421a6715c5722ed66bae9c8e4bcf63bf584int;
    lemma_doubled(n, w, 8514, x16, x17);
    let x18: int = 0xad0ead539abbddbb7076e96074670665b54e78dc2efb9a8fc9c70c1b39851d6int;
    lemma_doubled(n, w, 17028, x17, x18);
    let x19: int = 0x2638f92ac19645a76cd4e3e11bf4ecd4ec8d695e7196d33e793b79491174100int;
    lemma_doubled(n, w, 34056, x18, x19);
    let x20: int = 0x6cf335d47d6617cb5f1a2b31e128fa02e739abfbd46e43b6b79cd9fdd8e4073int;
    lemma_next(n, w, 68112, x19, x20);
    let x21: int = 0xe4233b985f79bcf5cf09370bd773f74181b6c3e7795ea50ed036f678bd6fcc8int;
    lemma_doubled(n, w, 68113, x20, x21);
    let x22: int = 0x989114b14628df8b54cbbb4bbb8efe9941f8d7832ab5f2d366b695b0bbb717fint;
    lemma_next(n, w, 136226, x21, x22);
    let x23: int = 0x8d56c1fe7e9ece2dc4cf6b862ac3cb43e3e00067c9b85d0096d818dc7a9cffbint;
    lemma_doubled(n, w, 136227, x22, x23);
    let x24: int = 0x143f2658b3b4345fbfdf6b82e21b334a7a5c3b7e02b580cedb373efa55c5014int;
    lemma_doubled(n, w, 272454, x23, x24);
    let x25: int = 0x9bc2032c6709e810ad85d7967c94f19719eea56a8519d3f8adff11342e7dbafint;
    lemma_doubled(n, w, 544908, x24, x25);
    let x26: int = 0xca63c3dbd92e5f28a127e3a363d63f134b4b3b8e6831645f8425c0cf54574ffint;
    lemma_doubled(n, w, 1089816, x25, x26);
    let x27: int = 0xbcf8d50b9656c8697c3d56abe92818406c265243379be0b078395fdcc9d97bfint;
    lemma_doubled(n, w, 2179632, x26, x27);
    let x28: int = 0x48741c2aac2dff27e98679ba95569440cf52b25a7550d24bc00315702b21a03int;
    lemma_doubled(n, w, 4359264, x27, x28);
    let x29: int = 0x71fdd67631570b6702b740a47826afc9f1cd17e233c6cbfc6eb963d3d0e5072int;
    lemma_doubled(n, w, 8718528, x28, x29);
    let x30: int = 0xff87bbf5c539f5af3f39cbff2c84b2345cf03bb444c57be8cc6e2ebed43d98aint;
    lemma_doubled(n, w, 17437056, x29, x30);
    let x31: int = 0x1278d59c86349e02ba4448caf42e9ddfd2f07377e3c4a4fdc88d78282bd79d75int;
    lemma_doubled(n, w, 34874112, x30, x31);
    let x32: int = 0xf08eec92a00cca4cfa5ca9a9fd556eacdd634e7d1eb41e5ed37c20bdbb59da9int;
    lemma_doubled(n, w, 69748224, x31, x32);
    let x33: int = 0x59f4c930e6854cb050c803d637765facfddb9878b26c590b1571e9039c01b5int;
    lemma_doubled(n, w, 139496448, x32, x33);
    let x34: int = 0x2909b7b31f6bf18163d3acc3dcb327ff211796edbb56c466fb50755f3270902int;
    lemma_doubled(n, w, 278992896, x33, x34);
    let x35: int = 0xa7b47dcaaf1448c79c2766536781a0c065bee1b4dfe627dc5c366a42f646cb0int;
    lemma_doubled(n, w, 557985792, x34, x35);
    let x36: int = 0x41dfd74f7fc4e9776188f25deffc7a0d1f4c1c1231e0b57127e99480eeb28d8int;
    lemma_doubled(n, w, 1115971584, x35, x36);
    let x37: int = 0x2d4216ea7d25e272f99e9f3378a2f8da5dcd21a997d4a392304b429a144caa8int;
    lemma_doubled(n, w, 2231943168, x36, x37);
    let x38: int = 0xde4e14c23e248d86f5f6dc18f576fbded15d65d4be58566a941112504fc854int;
    lemma_doubled(n, w, 4463886336, x37, x38);
    let x39: int = 0xedbc6f6fc1f5166691347f539052c2a2299ffdc8bd22e7062622dc12f792c6aint;
    lemma_doubled(n, w, 8927772672, x38, x39);
    let x40: int = 0x1fc59f4af2658c19b85e695bad525cd877db26541638ac1bfbb15de91000d16int;
    lemma_doubled(n, w, 17855545344, x39, x40);
    let x41: int = 0x9f382e8f39891bf19870bdbf1501df7ac89f49678c24b86ae34af8182359e6int;
    lemma_doubled(n, w, 35711090688, x40, x41);
    let x42: int = 0xa5c371f08282904291e61a79c173e5efbc445e5c2a9a6e3a463092ba6dad746int;
    lemma_doubled(n, w, 71422181376, x41, x42);
    let x43: int = 0x8f6b78f91866269afcaff3375622da2ab9f827ded10cab3e08389a49f98b898int;
    lemma_doubled(n, w, 142844362752, x42, x43);
    let x44: int = 0xbd20427ff52bd6e91864f36172c86ac930723b410eb9898d4e2b3acda1e4fd1int;
    lemma_doubled(n, w, 285688725504, x43, x44);
    let x45: int = 0xcebdad98ba7cf71333934ed34efbd8dd538ee3dbf4e669e83ca9963baf14e1eint;
    lemma_doubled(n, w, 571377451008, x44, x45);
    let x46: int = 0x10939fbbc827be4f147aa8309a9e7b5cc17b94a05dc8ff70a3741d670d0312eaint;
    lemma_doubled(n, w, 1142754902016, x45, x46);
    let x47: int = 0x226e34fd311078c52ee6045fa12bd69cdef3e30727e3f6e16bccdafb9ec2969int;
    lemma_doubled(n, w, 2285509804032, x46, x47);
    let x48: int = 0xb8a3e575f025a58549df27c3dd94adc6d139f9cd20c84c1dac56b5d1739c6daint;
    lemma_doubled(n, w, 4571019608064, x47, x48);
    let x49: int = 0xc6eab33166445e4af0a0cd10c8cfbdab03514e4475d7e1faace71d2e55d3a94int;
    lemma_doubled(n, w, 9142039216128, x48, x49);
    let x50: int = 0x33038b2337419b1aa4583e3a28f56a762b72e196aab012ee00aa47845073a52int;
    lemma_doubled(n, w, 18284078432256, x49, x50);
    let x51: int = 0xaac3978861edc91e09c35d4a09aee50e9e82b32c2cabdb591dfba37e8cf1a8dint;
    lemma_doubled(n, w, 36568156864512, x50, x51);
    let x52: int = 0xdecdcff9675eda7b0fb35fb118774ed8eddd21b99d0812359ae874ecd8c38eeint;
    lemma_doubled(n, w, 73136313729024, x51, x52);
    let x53: int = 0x30702b2b1d91923f0bc1b3e47c05f70f9c531817e4638840d8d81cf243cee40int;
    lemma_doubled(n, w, 146272627458048, x52, x53);
    let x54: int = 0x320c2c78c498789bbcf36aa30f92763f804d0d75e50827c18cdb84c1a045d90int;
    lemma_doubled(n, w, 292545254916096, x53, x54);
    let x55: int = 0xbbb26583a69b5dede0f1150a4c0a4039dbab1d320c65643b4af5c1f1f42674bint;
    lemma_doubled(n, w, 585090509832192, x54, x55);
    let x56: int = 0xd5a7eee37421b070d488d8d95b40725bcf8770b66e231a3974ef55702a8ce75int;
    lemma_doubled(n, w, 1170181019664384, x55, x56);
    let x57: int = 0x600cba232180f148466fe88148bac503682c33e867b05b8ea59ecd56a45ba39int;
    lemma_doubled(n, w, 2340362039328768, x56, x57);
    let x58: int = 0x6b451258b79c9e7112460853ebcb70b87d350e3dfc6c2cf9ad1292cbd5953dfint;
    lemma_doubled(n, w, 4680724078657536, x57, x58);
    let x59: int = 0x1babecbe61a7ce19bf2135694740611960913fa18cf8106dc3a043c5d6673bint;
    lemma_doubled(n, w, 9361448157315072, x58, x59);
    let x60: int = 0x95e8efcb3875ccd87ca5233f1ba6a0403dcde287ad5302fa59545beeac6ed64int;
    lemma_doubled(n, w, 18722896314630144, x59, x60);
    let x61: int = 0xfaeb74d1c3a45d37bc9241b84a201733e3a66d43de8fd6024f367eeb2b57810int;
    lemma_doubled(n, w, 37445792629260288, x60, x61);
    let x62: int = 0xf0eef919811aca1519734cfb7c6fea8efcc128c51c5e0b2eb30969b656cb607int;
    lemma_doubled(n, w, 74891585258520576, x61, x62);
    let x63: int = 0x2b53e3d9d2ad9c4280afd17666ccc64522935d23bc04274d6da6cc81557d466int;
    lemma_doubled(n, w, 149783170517041152, x62, x63);
    let x64: int = 0xa9a78503c159c8a17141167ef0feef9f05f21f3bf1d0dce328eb9ae62eb1240int;
    lemma_doubled(n, w, 299566341034082304, x63, x64);
    let x65: int = 0x9bf7463b11cd383eae61a965061f71d115832d01d0d8daf2833a914d4be8763int;
    lemma_doubled(n, w, 599132682068164608, x64, x65);
    let x66: int = 0x5a3ed285d2f87b501ee06d6364c062a2ea47ce9f19876c92f74d09664c98b73int;
    lemma_doubled(n, w, 1198265364136329216, x65, x66);
    let x67: int = 0xbc3766bba1a0fb1a5a6fb4b17f13e090830595c7756db6f36163b3b6be41f2int;
    lemma_doubled(n, w, 2396530728272658432, x66, x67);
    let x68: int = 0xfe8e9667a8c641e27d8e1f95cbb946b25f2f00eeab915cca9c1aa190fc48032int;
    lemma_doubled(n, w, 4793061456545316864, x67, x68);
    let x69: int = 0x1int;
    lemma_next(n, w, 9586122913090633728, x68, x69);
}

} // verus!
