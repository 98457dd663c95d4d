//! The curated gallery: the programs shown on the gallery page, each by
//! title and by the file under `gallery/` that holds its text.

use vstd::prelude::*;

verus! {

/// One gallery program: its title, the file under `gallery/` that holds its
/// text, and the longest edge to render it at (0: the program's own size).
pub struct GalleryEntry {
    pub name: &'static str,
    pub file: &'static str,
    pub size: u32,
}

/// The longest edge of a gallery thumbnail.
pub const GALLERY_MAX_DIM: u32 = 768;

/// How many programs the gallery holds.
pub const GALLERY_LEN: usize = 222;

/// The gallery in display order: each program's title and file.
pub open spec fn gallery_table() -> Seq<(Seq<char>, Seq<char>)> {
    seq![
        ("Sky and grass"@, "00-sky-and-grass.jxlart"@),
        ("Luca 02"@, "02-luca-deltapalette.jxlart"@),
        ("Luca 11 Noise XYB"@, "11-luca-noise-xyb.jxlart"@),
        ("Luca 13 WGH"@, "13-luca-deltapalette-wgh.jxlart"@),
        ("Surma 14"@, "14-surma-deltapalette.jxlart"@),
        ("Luca 27 NE + AvgW+N"@, "27-luca-ne-avgwn.jxlart"@),
        ("Luca 29 Prev errors"@, "29-luca-prev-errors.jxlart"@),
        ("Luca 30 Bitdepth 1"@, "30-luca-bitdepth1.jxlart"@),
        ("Surma 31 Squeeze + RCT 16"@, "31-surma-squeeze-rct16.jxlart"@),
        ("Surma 32 Splines"@, "32-surma-splines.jxlart"@),
        ("Surma 34 complex"@, "34-surma-complex.jxlart"@),
        ("Hidden channels"@, "35-hidden-channels.jxlart"@),
        ("Simple gradient"@, "36-simple-gradient.jxlart"@),
        ("Tropical Island Sunset with JXL logo overlay"@, "p1-001-tropical-island-sunset-with-jxl-logo-overlay.jxlart"@),
        ("Rubin golden vase 1"@, "p1-006-rubin-golden-vase-1.jxlart"@),
        ("Lucifer's Dominion: Synthesis"@, "p1-008-lucifers-dominion-synthesis.jxlart"@),
        ("Simplified Diagonalization Argument"@, "bg-001-simplified-diagonalization-argument.jxlart"@),
        ("Cyborg Brain"@, "bg-002-cyborg-brain.jxlart"@),
        ("Lovestorm"@, "bg-003-lovestorm.jxlart"@),
        ("Approximation of a perfect sunset"@, "bg-004-approximation-of-a-perfect-sunset.jxlart"@),
        ("Ceci n'est pas un arbre"@, "bg-005-ceci-nest-pas-un-arbre.jxlart"@),
        ("Peace Flag"@, "bg-006-peace-flag.jxlart"@),
        ("Abstract Haze"@, "bg-007-abstract-haze.jxlart"@),
        ("lossless"@, "bg-008-lossless.jxlart"@),
        ("Color and Texture"@, "bg-009-color-and-texture.jxlart"@),
        ("Yet Another Sierpinski"@, "bg-010-yet-another-sierpinski.jxlart"@),
        ("Staircased"@, "bg-011-staircased.jxlart"@),
        ("Structure out of the blue"@, "bg-012-structure-out-of-the-blue.jxlart"@),
        ("Fake sky with fake rainbow"@, "bg-013-fake-sky-with-fake-rainbow.jxlart"@),
        ("Hi!"@, "bg-014-hi.jxlart"@),
        ("Minimalist XOR pattern"@, "bg-015-minimalist-xor-pattern.jxlart"@),
        ("Endoplasmic Reticulum"@, "bg-016-endoplasmic-reticulum.jxlart"@),
        ("Endoplasmic Reticulum 2"@, "bg-017-endoplasmic-reticulum-2.jxlart"@),
        ("Endoplasmic Reticulum 2"@, "bg-018-endoplasmic-reticulum-2.jxlart"@),
        ("Misty Ruins"@, "bg-019-misty-ruins.jxlart"@),
        ("This is fine."@, "bg-020-this-is-fine.jxlart"@),
        ("Rainbow Cubicles"@, "bg-021-rainbow-cubicles.jxlart"@),
        ("The Atrocities of War"@, "bg-022-the-atrocities-of-war.jxlart"@),
        ("Magnificent Magnification"@, "bg-023-magnificent-magnification.jxlart"@),
        ("Erosion and shadows"@, "bg-024-erosion-and-shadows.jxlart"@),
        ("Peace"@, "bg-025-peace.jxlart"@),
        ("Random or regular?"@, "bg-026-random-or-regular.jxlart"@),
        ("A New Style"@, "bg-027-a-new-style.jxlart"@),
        ("A Maze of Broken Shards"@, "bg-028-a-maze-of-broken-shards.jxlart"@),
        ("Colored Aurora"@, "bg-029-colored-aurora.jxlart"@),
        ("Disintegration Or Genesis?"@, "bg-030-disintegration-or-genesis.jxlart"@),
        ("Sunset in Paradise"@, "bg-031-sunset-in-paradise.jxlart"@),
        ("Sunset in Paradise"@, "bg-032-sunset-in-paradise.jxlart"@),
        ("Sierpinski Meteor Apocalypse (oil on canvas)"@, "bg-033-sierpinski-meteor-apocalypse-oil-on-canvas.jxlart"@),
        ("Inexplicable shapes"@, "bg-034-inexplicable-shapes.jxlart"@),
        ("Minimal pride flag"@, "bg-035-minimal-pride-flag.jxlart"@),
        ("Kryptonite Refinery"@, "bg-036-kryptonite-refinery.jxlart"@),
        ("Cyberpunk Moods"@, "bg-037-cyberpunk-moods.jxlart"@),
        ("Halal"@, "bg-038-halal.jxlart"@),
        ("Binary trees"@, "bg-039-binary-trees.jxlart"@),
        ("Hell is starting to freeze over"@, "bg-040-hell-is-starting-to-freeze-over.jxlart"@),
        ("Cosmic background radiation"@, "bg-041-cosmic-background-radiation.jxlart"@),
        ("Lovebirds"@, "bg-042-lovebirds.jxlart"@),
        ("build your own polygons"@, "bg-043-build-your-own-polygons.jxlart"@),
        ("Golden matrix"@, "bg-044-golden-matrix.jxlart"@),
        ("Summer abstractions"@, "bg-045-summer-abstractions.jxlart"@),
        ("Summer abstractions"@, "bg-046-summer-abstractions.jxlart"@),
        ("Sponge"@, "bg-047-sponge.jxlart"@),
        ("Autumn Macroblocks"@, "bg-048-autumn-macroblocks.jxlart"@),
        ("North+Northwest"@, "bg-049-northnorthwest.jxlart"@),
        ("North+Northeast"@, "bg-050-northnortheast.jxlart"@),
        ("West+Northwest"@, "bg-051-westnorthwest.jxlart"@),
        ("Weighted"@, "bg-052-weighted.jxlart"@),
        ("AvgAll"@, "bg-053-avgall.jxlart"@),
        ("NorthWest"@, "bg-054-northwest.jxlart"@),
        ("Northeast"@, "bg-055-northeast.jxlart"@),
        ("Hairy Selection"@, "bg-056-hairy-selection.jxlart"@),
        ("4K Moiré Curtains"@, "bg-057-4k-moiré-curtains.jxlart"@),
        ("Carrosserie Brillante"@, "bg-058-carrosserie-brillante.jxlart"@),
        ("Kafkaesque Blue Corridors"@, "bg-059-kafkaesque-blue-corridors.jxlart"@),
        ("Shimmer"@, "bg-060-shimmer.jxlart"@),
        ("24-bite Chocolate Bar"@, "bg-061-24-bite-chocolate-bar.jxlart"@),
        ("24-bite Chocolate Bar"@, "bg-062-24-bite-chocolate-bar.jxlart"@),
        ("Lies, damned lies, and statistics"@, "bg-063-lies-damned-lies-and-statistics.jxlart"@),
        ("Hardware"@, "bg-064-hardware.jxlart"@),
        ("Ceci n'est pas 3D"@, "bg-066-ceci-nest-pas-3d.jxlart"@),
        ("Ceci n'est pas 3D"@, "bg-067-ceci-nest-pas-3d.jxlart"@),
        ("Folding an old-fashioned map"@, "bg-068-folding-an-old-fashioned-map.jxlart"@),
        ("Color Bars"@, "bg-069-color-bars.jxlart"@),
        ("Curvature"@, "bg-070-curvature.jxlart"@),
        ("Batteries?"@, "bg-071-batteries.jxlart"@),
        ("Simple rule, unexpected outcome"@, "bg-072-simple-rule-unexpected-outcome.jxlart"@),
        ("Simple rule, unexpected outcome (2)"@, "bg-073-simple-rule-unexpected-outcome-2.jxlart"@),
        ("Simple rule, unexpected outcome (3)"@, "bg-074-simple-rule-unexpected-outcome-3.jxlart"@),
        ("Simple rule, unexpected outcome (4)"@, "bg-075-simple-rule-unexpected-outcome-4.jxlart"@),
        ("Simple rule, unexpected outcome (5)"@, "bg-076-simple-rule-unexpected-outcome-5.jxlart"@),
        ("Simple rule, unexpected outcome (6)"@, "bg-077-simple-rule-unexpected-outcome-6.jxlart"@),
        ("The Big Puzzle"@, "bg-078-the-big-puzzle.jxlart"@),
        ("Festivities"@, "bg-079-festivities.jxlart"@),
        ("Diagram"@, "bg-080-diagram.jxlart"@),
        ("The decay of gold"@, "bg-081-the-decay-of-gold.jxlart"@),
        ("The decay of gold"@, "bg-082-the-decay-of-gold.jxlart"@),
        ("Mondrian Revisited"@, "bg-083-mondrian-revisited.jxlart"@),
        ("Untitled"@, "bg-084-untitled.jxlart"@),
        ("Chessboard Madness"@, "bg-085-chessboard-madness.jxlart"@),
        ("Untitled"@, "bg-086-untitled.jxlart"@),
        ("Untitled"@, "bg-087-untitled.jxlart"@),
        ("Lines"@, "bg-088-lines.jxlart"@),
        ("$$$$$"@, "bg-089-untitled.jxlart"@),
        ("Feathers"@, "bg-090-feathers.jxlart"@),
        ("Skyscrapers"@, "bg-091-skyscrapers.jxlart"@),
        ("Iron Curtains"@, "bg-092-iron-curtains.jxlart"@),
        ("The New Variant (simplified)"@, "bg-093-the-new-variant-simplified.jxlart"@),
        ("What is this"@, "bg-094-what-is-this.jxlart"@),
        ("Or this?"@, "bg-095-or-this.jxlart"@),
        ("cave crystals"@, "bg-096-cave-crystals.jxlart"@),
        ("Untitled"@, "bg-097-untitled.jxlart"@),
        ("Count the triangles in this picture"@, "bg-098-count-the-triangles-in-this-picture.jxlart"@),
        ("Signals"@, "bg-099-signals.jxlart"@),
        ("Rift"@, "bg-100-rift.jxlart"@),
        ("Advanced Trigonometry"@, "bg-101-advanced-trigonometry.jxlart"@),
        ("Advanced Trigonometry"@, "bg-102-advanced-trigonometry.jxlart"@),
        ("Ripples"@, "bg-103-ripples.jxlart"@),
        ("Zigzag"@, "bg-104-zigzag.jxlart"@),
        ("Mountain peaks?"@, "bg-105-mountain-peaks.jxlart"@),
        ("Moore's Moiré"@, "bg-106-moores-moiré.jxlart"@),
        ("Blue (da ba dee)"@, "bg-107-blue-da-ba-dee.jxlart"@),
        ("Misty Glass Towers"@, "bg-108-misty-glass-towers.jxlart"@),
        ("Industrial Revolution"@, "bg-109-industrial-revolution.jxlart"@),
        ("Barcode synthesis"@, "bg-110-barcode-synthesis.jxlart"@),
        ("Emergent Behavior"@, "bg-111-emergent-behavior.jxlart"@),
        ("Pharmaceutical Abstraction"@, "bg-112-pharmaceutical-abstraction.jxlart"@),
        ("Spliney"@, "bg-113-spliney.jxlart"@),
        ("Drapeau Franco-Belge"@, "bg-114-drapeau-franco-belge.jxlart"@),
        ("Structure (1)"@, "bg-115-structure-1.jxlart"@),
        ("Structure (2)"@, "bg-116-structure-2.jxlart"@),
        ("Structure (3)"@, "bg-117-structure-3.jxlart"@),
        ("Structure (4)"@, "bg-118-structure-4.jxlart"@),
        ("Nebulosity"@, "bg-119-nebulosity.jxlart"@),
        ("Gradient 444"@, "bg-120-gradient-444.jxlart"@),
        ("Gradient 444"@, "bg-121-gradient-444.jxlart"@),
        ("Sun in the sky"@, "bg-122-sun-in-the-sky.jxlart"@),
        ("Sun in the sky"@, "bg-123-sun-in-the-sky.jxlart"@),
        ("Flag of Seychelles"@, "bg-124-flag-of-seychelles.jxlart"@),
        ("Flag of Sweden"@, "bg-125-flag-of-sweden.jxlart"@),
        ("Frozen Sierpiński"@, "bg-126-frozen-sierpiński.jxlart"@),
        ("Painting with light"@, "bg-127-painting-with-light.jxlart"@),
        ("New Wallpaper"@, "bg-128-new-wallpaper.jxlart"@),
        ("Barfing Chips"@, "bg-129-barfing-chips.jxlart"@),
        ("Stage Spotlight"@, "bg-130-stage-spotlight.jxlart"@),
        ("Irregular diagonal lines"@, "bg-131-irregular-diagonal-lines.jxlart"@),
        ("Completely Bonkers"@, "bg-132-completely-bonkers.jxlart"@),
        ("RayBeams"@, "bg-133-raybeams.jxlart"@),
        ("RayBeams 2"@, "bg-134-raybeams-2.jxlart"@),
        ("Flag of Austria"@, "bg-135-flag-of-austria.jxlart"@),
        ("Swiss Flag"@, "bg-136-swiss-flag.jxlart"@),
        ("Unpredictability"@, "bg-137-unpredictability.jxlart"@),
        ("Chromatic Stripes"@, "bg-138-chromatic-stripes.jxlart"@),
        ("Some fucked up shit idk"@, "bg-139-some-fucked-up-shit-idk.jxlart"@),
        ("German flag"@, "bg-140-german-flag.jxlart"@),
        ("Funky iPhone 16 wallpaper"@, "bg-141-funky-iphone-16-wallpaper.jxlart"@),
        ("Minimalism"@, "bg-142-minimalism.jxlart"@),
        ("Bruges Lace"@, "bg-143-bruges-lace.jxlart"@),
        ("Bruges Lace"@, "bg-144-bruges-lace.jxlart"@),
        ("Shattered palette"@, "bg-145-shattered-palette.jxlart"@),
        ("something"@, "bg-146-something.jxlart"@),
        ("Directions"@, "bg-147-directions.jxlart"@),
        ("Untitled curly stuff"@, "bg-148-untitled-curly-stuff.jxlart"@),
        ("Pixelation, Interpolation"@, "bg-149-pixelation-interpolation.jxlart"@),
        ("The Organ"@, "bg-150-the-organ.jxlart"@),
        ("Merry jXl-mas!"@, "bg-151-merry-jxl-mas.jxlart"@),
        ("Merry jXl-mas!"@, "bg-152-merry-jxl-mas.jxlart"@),
        ("Interference"@, "bg-153-interference.jxlart"@),
        ("A new phone wallpaper"@, "bg-154-a-new-phone-wallpaper.jxlart"@),
        ("MicroRough Surface"@, "bg-155-microrough-surface.jxlart"@),
        ("Untitled"@, "bg-156-untitled.jxlart"@),
        ("something"@, "bg-157-something.jxlart"@),
        ("Relatively interesting for 21 bytes"@, "bg-158-relatively-interesting-for-21-bytes.jxlart"@),
        ("The rocket"@, "bg-159-the-rocket.jxlart"@),
        ("Unexpected marble and gold"@, "bg-160-unexpected-marble-and-gold.jxlart"@),
        ("Corruption of order"@, "bg-161-corruption-of-order.jxlart"@),
        ("Spilling and smearing"@, "bg-162-spilling-and-smearing.jxlart"@),
        ("Brushed plastic"@, "bg-163-brushed-plastic.jxlart"@),
        ("The Epic Siege of the Nether Castle"@, "bg-164-the-epic-siege-of-the-nether-castle.jxlart"@),
        ("melting crystal"@, "bg-165-melting-crystal.jxlart"@),
        ("DeltaPalette + Squeeze = ?"@, "bg-166-deltapalette-squeeze.jxlart"@),
        ("Set 0"@, "bg-167-set-0.jxlart"@),
        ("Set 1"@, "bg-168-set-1.jxlart"@),
        ("Set 2"@, "bg-169-set-2.jxlart"@),
        ("Set 4"@, "bg-170-set-4.jxlart"@),
        ("Set 6"@, "bg-171-set-6.jxlart"@),
        ("Tablecloth"@, "bg-172-tablecloth.jxlart"@),
        ("Messy mosaic"@, "bg-173-messy-mosaic.jxlart"@),
        ("How to tame this thing?"@, "bg-174-how-to-tame-this-thing.jxlart"@),
        ("Noisy pattern"@, "bg-175-noisy-pattern.jxlart"@),
        ("Progress Pride Flag v1"@, "bg-176-progress-pride-flag-v1.jxlart"@),
        ("Wonky frame corners"@, "bg-177-wonky-frame-corners.jxlart"@),
        ("Étude nº19"@, "bg-178-étude-nº19.jxlart"@),
        ("Étude nº20"@, "bg-179-étude-nº20.jxlart"@),
        ("Étude nº22"@, "bg-180-étude-nº22.jxlart"@),
        ("Étude nº28"@, "bg-181-étude-nº28.jxlart"@),
        ("Default delta metallic"@, "bg-182-default-delta-metallic.jxlart"@),
        ("A selection of Occam's razors"@, "bg-183-a-selection-of-occams-razors.jxlart"@),
        ("Alien Muscle Tissue Sample"@, "bg-184-alien-muscle-tissue-sample.jxlart"@),
        ("Entropie Émergente (Étude nº 241)"@, "bg-185-entropie-émergente-étude-nº-241.jxlart"@),
        ("Stairs mutating"@, "bg-186-stairs-mutating.jxlart"@),
        ("Entropie Émergente (Étude nº -225)"@, "bg-187-entropie-émergente-étude-nº-225.jxlart"@),
        ("broken prism"@, "bg-188-broken-prism.jxlart"@),
        ("the smiling face"@, "bg-189-the-smiling-face.jxlart"@),
        ("The Snake"@, "bg-190-the-snake.jxlart"@),
        ("More Delta Palette Abstract Stuff"@, "bg-191-more-delta-palette-abstract-stuff.jxlart"@),
        ("Waterfall Brushes"@, "bg-192-waterfall-brushes.jxlart"@),
        ("Flag of Cornwall"@, "bg-193-flag-of-cornwall.jxlart"@),
        ("Flag of Cornwall"@, "bg-194-flag-of-cornwall.jxlart"@),
        ("Chroma and luma (Rec2100 PQ)"@, "hdr-001-chroma-and-luma-rec2100-pq.jxlart"@),
        ("freshly baked tray of neoncookieli"@, "hdr-002-freshly-baked-tray-of-neoncookieli.jxlart"@),
        ("neon fractal"@, "hdr-003-neon-fractal.jxlart"@),
        ("Sierpinski's shadow"@, "hdr-004-sierpinskis-shadow.jxlart"@),
        ("Something something neon HDR"@, "hdr-005-something-something-neon-hdr.jxlart"@),
        ("Nuggets of default delta palette in HDR"@, "hdr-006-nuggets-of-default-delta-palette-in-hdr.jxlart"@),
        ("HDR test image (10 bit, full range PQ)"@, "hdr-007-hdr-test-image-10-bit-full-range-pq.jxlart"@),
        ("ITU-R BT.2111-3 (2K, 10 bit, full range PQ)"@, "hdr-008-itu-r-bt2111-3-2k-10-bit-full-range-pq.jxlart"@),
        ("Heat"@, "hdr-009-heat.jxlart"@),
        ("Flares"@, "hdr-010-flares.jxlart"@),
        ("Surma extra 1"@, "surma-001-surma-extra-1.jxlart"@),
        ("Surma extra 2"@, "surma-002-surma-extra-2.jxlart"@),
        ("Surma extra 3"@, "surma-003-surma-extra-3.jxlart"@),
    ]
}

/// The entry at `i` of the gallery.
fn entry_at(i: usize) -> (e: GalleryEntry)
    requires
        i < GALLERY_LEN,
    ensures
        (e.name@, e.file@) == gallery_table()[i as int],
        e.size == 0,
{
    let (name, file): (&'static str, &'static str) = match i {
        0 => ("Sky and grass", "00-sky-and-grass.jxlart"),
        1 => ("Luca 02", "02-luca-deltapalette.jxlart"),
        2 => ("Luca 11 Noise XYB", "11-luca-noise-xyb.jxlart"),
        3 => ("Luca 13 WGH", "13-luca-deltapalette-wgh.jxlart"),
        4 => ("Surma 14", "14-surma-deltapalette.jxlart"),
        5 => ("Luca 27 NE + AvgW+N", "27-luca-ne-avgwn.jxlart"),
        6 => ("Luca 29 Prev errors", "29-luca-prev-errors.jxlart"),
        7 => ("Luca 30 Bitdepth 1", "30-luca-bitdepth1.jxlart"),
        8 => ("Surma 31 Squeeze + RCT 16", "31-surma-squeeze-rct16.jxlart"),
        9 => ("Surma 32 Splines", "32-surma-splines.jxlart"),
        10 => ("Surma 34 complex", "34-surma-complex.jxlart"),
        11 => ("Hidden channels", "35-hidden-channels.jxlart"),
        12 => ("Simple gradient", "36-simple-gradient.jxlart"),
        13 => ("Tropical Island Sunset with JXL logo overlay", "p1-001-tropical-island-sunset-with-jxl-logo-overlay.jxlart"),
        14 => ("Rubin golden vase 1", "p1-006-rubin-golden-vase-1.jxlart"),
        15 => ("Lucifer's Dominion: Synthesis", "p1-008-lucifers-dominion-synthesis.jxlart"),
        16 => ("Simplified Diagonalization Argument", "bg-001-simplified-diagonalization-argument.jxlart"),
        17 => ("Cyborg Brain", "bg-002-cyborg-brain.jxlart"),
        18 => ("Lovestorm", "bg-003-lovestorm.jxlart"),
        19 => ("Approximation of a perfect sunset", "bg-004-approximation-of-a-perfect-sunset.jxlart"),
        20 => ("Ceci n'est pas un arbre", "bg-005-ceci-nest-pas-un-arbre.jxlart"),
        21 => ("Peace Flag", "bg-006-peace-flag.jxlart"),
        22 => ("Abstract Haze", "bg-007-abstract-haze.jxlart"),
        23 => ("lossless", "bg-008-lossless.jxlart"),
        24 => ("Color and Texture", "bg-009-color-and-texture.jxlart"),
        25 => ("Yet Another Sierpinski", "bg-010-yet-another-sierpinski.jxlart"),
        26 => ("Staircased", "bg-011-staircased.jxlart"),
        27 => ("Structure out of the blue", "bg-012-structure-out-of-the-blue.jxlart"),
        28 => ("Fake sky with fake rainbow", "bg-013-fake-sky-with-fake-rainbow.jxlart"),
        29 => ("Hi!", "bg-014-hi.jxlart"),
        30 => ("Minimalist XOR pattern", "bg-015-minimalist-xor-pattern.jxlart"),
        31 => ("Endoplasmic Reticulum", "bg-016-endoplasmic-reticulum.jxlart"),
        32 => ("Endoplasmic Reticulum 2", "bg-017-endoplasmic-reticulum-2.jxlart"),
        33 => ("Endoplasmic Reticulum 2", "bg-018-endoplasmic-reticulum-2.jxlart"),
        34 => ("Misty Ruins", "bg-019-misty-ruins.jxlart"),
        35 => ("This is fine.", "bg-020-this-is-fine.jxlart"),
        36 => ("Rainbow Cubicles", "bg-021-rainbow-cubicles.jxlart"),
        37 => ("The Atrocities of War", "bg-022-the-atrocities-of-war.jxlart"),
        38 => ("Magnificent Magnification", "bg-023-magnificent-magnification.jxlart"),
        39 => ("Erosion and shadows", "bg-024-erosion-and-shadows.jxlart"),
        40 => ("Peace", "bg-025-peace.jxlart"),
        41 => ("Random or regular?", "bg-026-random-or-regular.jxlart"),
        42 => ("A New Style", "bg-027-a-new-style.jxlart"),
        43 => ("A Maze of Broken Shards", "bg-028-a-maze-of-broken-shards.jxlart"),
        44 => ("Colored Aurora", "bg-029-colored-aurora.jxlart"),
        45 => ("Disintegration Or Genesis?", "bg-030-disintegration-or-genesis.jxlart"),
        46 => ("Sunset in Paradise", "bg-031-sunset-in-paradise.jxlart"),
        47 => ("Sunset in Paradise", "bg-032-sunset-in-paradise.jxlart"),
        48 => ("Sierpinski Meteor Apocalypse (oil on canvas)", "bg-033-sierpinski-meteor-apocalypse-oil-on-canvas.jxlart"),
        49 => ("Inexplicable shapes", "bg-034-inexplicable-shapes.jxlart"),
        50 => ("Minimal pride flag", "bg-035-minimal-pride-flag.jxlart"),
        51 => ("Kryptonite Refinery", "bg-036-kryptonite-refinery.jxlart"),
        52 => ("Cyberpunk Moods", "bg-037-cyberpunk-moods.jxlart"),
        53 => ("Halal", "bg-038-halal.jxlart"),
        54 => ("Binary trees", "bg-039-binary-trees.jxlart"),
        55 => ("Hell is starting to freeze over", "bg-040-hell-is-starting-to-freeze-over.jxlart"),
        56 => ("Cosmic background radiation", "bg-041-cosmic-background-radiation.jxlart"),
        57 => ("Lovebirds", "bg-042-lovebirds.jxlart"),
        58 => ("build your own polygons", "bg-043-build-your-own-polygons.jxlart"),
        59 => ("Golden matrix", "bg-044-golden-matrix.jxlart"),
        60 => ("Summer abstractions", "bg-045-summer-abstractions.jxlart"),
        61 => ("Summer abstractions", "bg-046-summer-abstractions.jxlart"),
        62 => ("Sponge", "bg-047-sponge.jxlart"),
        63 => ("Autumn Macroblocks", "bg-048-autumn-macroblocks.jxlart"),
        64 => ("North+Northwest", "bg-049-northnorthwest.jxlart"),
        65 => ("North+Northeast", "bg-050-northnortheast.jxlart"),
        66 => ("West+Northwest", "bg-051-westnorthwest.jxlart"),
        67 => ("Weighted", "bg-052-weighted.jxlart"),
        68 => ("AvgAll", "bg-053-avgall.jxlart"),
        69 => ("NorthWest", "bg-054-northwest.jxlart"),
        70 => ("Northeast", "bg-055-northeast.jxlart"),
        71 => ("Hairy Selection", "bg-056-hairy-selection.jxlart"),
        72 => ("4K Moiré Curtains", "bg-057-4k-moiré-curtains.jxlart"),
        73 => ("Carrosserie Brillante", "bg-058-carrosserie-brillante.jxlart"),
        74 => ("Kafkaesque Blue Corridors", "bg-059-kafkaesque-blue-corridors.jxlart"),
        75 => ("Shimmer", "bg-060-shimmer.jxlart"),
        76 => ("24-bite Chocolate Bar", "bg-061-24-bite-chocolate-bar.jxlart"),
        77 => ("24-bite Chocolate Bar", "bg-062-24-bite-chocolate-bar.jxlart"),
        78 => ("Lies, damned lies, and statistics", "bg-063-lies-damned-lies-and-statistics.jxlart"),
        79 => ("Hardware", "bg-064-hardware.jxlart"),
        80 => ("Ceci n'est pas 3D", "bg-066-ceci-nest-pas-3d.jxlart"),
        81 => ("Ceci n'est pas 3D", "bg-067-ceci-nest-pas-3d.jxlart"),
        82 => ("Folding an old-fashioned map", "bg-068-folding-an-old-fashioned-map.jxlart"),
        83 => ("Color Bars", "bg-069-color-bars.jxlart"),
        84 => ("Curvature", "bg-070-curvature.jxlart"),
        85 => ("Batteries?", "bg-071-batteries.jxlart"),
        86 => ("Simple rule, unexpected outcome", "bg-072-simple-rule-unexpected-outcome.jxlart"),
        87 => ("Simple rule, unexpected outcome (2)", "bg-073-simple-rule-unexpected-outcome-2.jxlart"),
        88 => ("Simple rule, unexpected outcome (3)", "bg-074-simple-rule-unexpected-outcome-3.jxlart"),
        89 => ("Simple rule, unexpected outcome (4)", "bg-075-simple-rule-unexpected-outcome-4.jxlart"),
        90 => ("Simple rule, unexpected outcome (5)", "bg-076-simple-rule-unexpected-outcome-5.jxlart"),
        91 => ("Simple rule, unexpected outcome (6)", "bg-077-simple-rule-unexpected-outcome-6.jxlart"),
        92 => ("The Big Puzzle", "bg-078-the-big-puzzle.jxlart"),
        93 => ("Festivities", "bg-079-festivities.jxlart"),
        94 => ("Diagram", "bg-080-diagram.jxlart"),
        95 => ("The decay of gold", "bg-081-the-decay-of-gold.jxlart"),
        96 => ("The decay of gold", "bg-082-the-decay-of-gold.jxlart"),
        97 => ("Mondrian Revisited", "bg-083-mondrian-revisited.jxlart"),
        98 => ("Untitled", "bg-084-untitled.jxlart"),
        99 => ("Chessboard Madness", "bg-085-chessboard-madness.jxlart"),
        100 => ("Untitled", "bg-086-untitled.jxlart"),
        101 => ("Untitled", "bg-087-untitled.jxlart"),
        102 => ("Lines", "bg-088-lines.jxlart"),
        103 => ("$$$$$", "bg-089-untitled.jxlart"),
        104 => ("Feathers", "bg-090-feathers.jxlart"),
        105 => ("Skyscrapers", "bg-091-skyscrapers.jxlart"),
        106 => ("Iron Curtains", "bg-092-iron-curtains.jxlart"),
        107 => ("The New Variant (simplified)", "bg-093-the-new-variant-simplified.jxlart"),
        108 => ("What is this", "bg-094-what-is-this.jxlart"),
        109 => ("Or this?", "bg-095-or-this.jxlart"),
        110 => ("cave crystals", "bg-096-cave-crystals.jxlart"),
        111 => ("Untitled", "bg-097-untitled.jxlart"),
        112 => ("Count the triangles in this picture", "bg-098-count-the-triangles-in-this-picture.jxlart"),
        113 => ("Signals", "bg-099-signals.jxlart"),
        114 => ("Rift", "bg-100-rift.jxlart"),
        115 => ("Advanced Trigonometry", "bg-101-advanced-trigonometry.jxlart"),
        116 => ("Advanced Trigonometry", "bg-102-advanced-trigonometry.jxlart"),
        117 => ("Ripples", "bg-103-ripples.jxlart"),
        118 => ("Zigzag", "bg-104-zigzag.jxlart"),
        119 => ("Mountain peaks?", "bg-105-mountain-peaks.jxlart"),
        120 => ("Moore's Moiré", "bg-106-moores-moiré.jxlart"),
        121 => ("Blue (da ba dee)", "bg-107-blue-da-ba-dee.jxlart"),
        122 => ("Misty Glass Towers", "bg-108-misty-glass-towers.jxlart"),
        123 => ("Industrial Revolution", "bg-109-industrial-revolution.jxlart"),
        124 => ("Barcode synthesis", "bg-110-barcode-synthesis.jxlart"),
        125 => ("Emergent Behavior", "bg-111-emergent-behavior.jxlart"),
        126 => ("Pharmaceutical Abstraction", "bg-112-pharmaceutical-abstraction.jxlart"),
        127 => ("Spliney", "bg-113-spliney.jxlart"),
        128 => ("Drapeau Franco-Belge", "bg-114-drapeau-franco-belge.jxlart"),
        129 => ("Structure (1)", "bg-115-structure-1.jxlart"),
        130 => ("Structure (2)", "bg-116-structure-2.jxlart"),
        131 => ("Structure (3)", "bg-117-structure-3.jxlart"),
        132 => ("Structure (4)", "bg-118-structure-4.jxlart"),
        133 => ("Nebulosity", "bg-119-nebulosity.jxlart"),
        134 => ("Gradient 444", "bg-120-gradient-444.jxlart"),
        135 => ("Gradient 444", "bg-121-gradient-444.jxlart"),
        136 => ("Sun in the sky", "bg-122-sun-in-the-sky.jxlart"),
        137 => ("Sun in the sky", "bg-123-sun-in-the-sky.jxlart"),
        138 => ("Flag of Seychelles", "bg-124-flag-of-seychelles.jxlart"),
        139 => ("Flag of Sweden", "bg-125-flag-of-sweden.jxlart"),
        140 => ("Frozen Sierpiński", "bg-126-frozen-sierpiński.jxlart"),
        141 => ("Painting with light", "bg-127-painting-with-light.jxlart"),
        142 => ("New Wallpaper", "bg-128-new-wallpaper.jxlart"),
        143 => ("Barfing Chips", "bg-129-barfing-chips.jxlart"),
        144 => ("Stage Spotlight", "bg-130-stage-spotlight.jxlart"),
        145 => ("Irregular diagonal lines", "bg-131-irregular-diagonal-lines.jxlart"),
        146 => ("Completely Bonkers", "bg-132-completely-bonkers.jxlart"),
        147 => ("RayBeams", "bg-133-raybeams.jxlart"),
        148 => ("RayBeams 2", "bg-134-raybeams-2.jxlart"),
        149 => ("Flag of Austria", "bg-135-flag-of-austria.jxlart"),
        150 => ("Swiss Flag", "bg-136-swiss-flag.jxlart"),
        151 => ("Unpredictability", "bg-137-unpredictability.jxlart"),
        152 => ("Chromatic Stripes", "bg-138-chromatic-stripes.jxlart"),
        153 => ("Some fucked up shit idk", "bg-139-some-fucked-up-shit-idk.jxlart"),
        154 => ("German flag", "bg-140-german-flag.jxlart"),
        155 => ("Funky iPhone 16 wallpaper", "bg-141-funky-iphone-16-wallpaper.jxlart"),
        156 => ("Minimalism", "bg-142-minimalism.jxlart"),
        157 => ("Bruges Lace", "bg-143-bruges-lace.jxlart"),
        158 => ("Bruges Lace", "bg-144-bruges-lace.jxlart"),
        159 => ("Shattered palette", "bg-145-shattered-palette.jxlart"),
        160 => ("something", "bg-146-something.jxlart"),
        161 => ("Directions", "bg-147-directions.jxlart"),
        162 => ("Untitled curly stuff", "bg-148-untitled-curly-stuff.jxlart"),
        163 => ("Pixelation, Interpolation", "bg-149-pixelation-interpolation.jxlart"),
        164 => ("The Organ", "bg-150-the-organ.jxlart"),
        165 => ("Merry jXl-mas!", "bg-151-merry-jxl-mas.jxlart"),
        166 => ("Merry jXl-mas!", "bg-152-merry-jxl-mas.jxlart"),
        167 => ("Interference", "bg-153-interference.jxlart"),
        168 => ("A new phone wallpaper", "bg-154-a-new-phone-wallpaper.jxlart"),
        169 => ("MicroRough Surface", "bg-155-microrough-surface.jxlart"),
        170 => ("Untitled", "bg-156-untitled.jxlart"),
        171 => ("something", "bg-157-something.jxlart"),
        172 => ("Relatively interesting for 21 bytes", "bg-158-relatively-interesting-for-21-bytes.jxlart"),
        173 => ("The rocket", "bg-159-the-rocket.jxlart"),
        174 => ("Unexpected marble and gold", "bg-160-unexpected-marble-and-gold.jxlart"),
        175 => ("Corruption of order", "bg-161-corruption-of-order.jxlart"),
        176 => ("Spilling and smearing", "bg-162-spilling-and-smearing.jxlart"),
        177 => ("Brushed plastic", "bg-163-brushed-plastic.jxlart"),
        178 => ("The Epic Siege of the Nether Castle", "bg-164-the-epic-siege-of-the-nether-castle.jxlart"),
        179 => ("melting crystal", "bg-165-melting-crystal.jxlart"),
        180 => ("DeltaPalette + Squeeze = ?", "bg-166-deltapalette-squeeze.jxlart"),
        181 => ("Set 0", "bg-167-set-0.jxlart"),
        182 => ("Set 1", "bg-168-set-1.jxlart"),
        183 => ("Set 2", "bg-169-set-2.jxlart"),
        184 => ("Set 4", "bg-170-set-4.jxlart"),
        185 => ("Set 6", "bg-171-set-6.jxlart"),
        186 => ("Tablecloth", "bg-172-tablecloth.jxlart"),
        187 => ("Messy mosaic", "bg-173-messy-mosaic.jxlart"),
        188 => ("How to tame this thing?", "bg-174-how-to-tame-this-thing.jxlart"),
        189 => ("Noisy pattern", "bg-175-noisy-pattern.jxlart"),
        190 => ("Progress Pride Flag v1", "bg-176-progress-pride-flag-v1.jxlart"),
        191 => ("Wonky frame corners", "bg-177-wonky-frame-corners.jxlart"),
        192 => ("Étude nº19", "bg-178-étude-nº19.jxlart"),
        193 => ("Étude nº20", "bg-179-étude-nº20.jxlart"),
        194 => ("Étude nº22", "bg-180-étude-nº22.jxlart"),
        195 => ("Étude nº28", "bg-181-étude-nº28.jxlart"),
        196 => ("Default delta metallic", "bg-182-default-delta-metallic.jxlart"),
        197 => ("A selection of Occam's razors", "bg-183-a-selection-of-occams-razors.jxlart"),
        198 => ("Alien Muscle Tissue Sample", "bg-184-alien-muscle-tissue-sample.jxlart"),
        199 => ("Entropie Émergente (Étude nº 241)", "bg-185-entropie-émergente-étude-nº-241.jxlart"),
        200 => ("Stairs mutating", "bg-186-stairs-mutating.jxlart"),
        201 => ("Entropie Émergente (Étude nº -225)", "bg-187-entropie-émergente-étude-nº-225.jxlart"),
        202 => ("broken prism", "bg-188-broken-prism.jxlart"),
        203 => ("the smiling face", "bg-189-the-smiling-face.jxlart"),
        204 => ("The Snake", "bg-190-the-snake.jxlart"),
        205 => ("More Delta Palette Abstract Stuff", "bg-191-more-delta-palette-abstract-stuff.jxlart"),
        206 => ("Waterfall Brushes", "bg-192-waterfall-brushes.jxlart"),
        207 => ("Flag of Cornwall", "bg-193-flag-of-cornwall.jxlart"),
        208 => ("Flag of Cornwall", "bg-194-flag-of-cornwall.jxlart"),
        209 => ("Chroma and luma (Rec2100 PQ)", "hdr-001-chroma-and-luma-rec2100-pq.jxlart"),
        210 => ("freshly baked tray of neoncookieli", "hdr-002-freshly-baked-tray-of-neoncookieli.jxlart"),
        211 => ("neon fractal", "hdr-003-neon-fractal.jxlart"),
        212 => ("Sierpinski's shadow", "hdr-004-sierpinskis-shadow.jxlart"),
        213 => ("Something something neon HDR", "hdr-005-something-something-neon-hdr.jxlart"),
        214 => ("Nuggets of default delta palette in HDR", "hdr-006-nuggets-of-default-delta-palette-in-hdr.jxlart"),
        215 => ("HDR test image (10 bit, full range PQ)", "hdr-007-hdr-test-image-10-bit-full-range-pq.jxlart"),
        216 => ("ITU-R BT.2111-3 (2K, 10 bit, full range PQ)", "hdr-008-itu-r-bt2111-3-2k-10-bit-full-range-pq.jxlart"),
        217 => ("Heat", "hdr-009-heat.jxlart"),
        218 => ("Flares", "hdr-010-flares.jxlart"),
        219 => ("Surma extra 1", "surma-001-surma-extra-1.jxlart"),
        220 => ("Surma extra 2", "surma-002-surma-extra-2.jxlart"),
        _ => ("Surma extra 3", "surma-003-surma-extra-3.jxlart"),
    };
    GalleryEntry { name, file, size: 0 }
}

/// The gallery entries, in display order, each at native size.
pub fn entries() -> (r: Vec<GalleryEntry>)
    ensures
        r@.len() == gallery_table().len(),
        forall|i: int|
            0 <= i < r@.len() ==> (#[trigger] r@[i]).size == 0 && (r@[i].name@, r@[i].file@)
                == gallery_table()[i],
{
    let mut v: Vec<GalleryEntry> = Vec::new();
    let mut i: usize = 0;
    while i < GALLERY_LEN
        invariant
            i <= GALLERY_LEN,
            GALLERY_LEN == gallery_table().len(),
            v@.len() == i,
            forall|j: int|
                0 <= j < i ==> (#[trigger] v@[j]).size == 0 && (v@[j].name@, v@[j].file@)
                    == gallery_table()[j],
        decreases GALLERY_LEN - i,
    {
        v.push(entry_at(i));
        i = i + 1;
    }
    v
}

/// The longest edge a gallery entry of size `size` is rendered at: its own
/// size, capped at `GALLERY_MAX_DIM`, with 0 meaning the cap.
pub fn thumbnail_edge(size: u32) -> (r: u32)
    ensures
        r == (if size == 0 || size > GALLERY_MAX_DIM {
            GALLERY_MAX_DIM
        } else {
            size
        }),
{
    if size == 0 {
        GALLERY_MAX_DIM
    } else if size < GALLERY_MAX_DIM {
        size
    } else {
        GALLERY_MAX_DIM
    }
}

} // verus!
